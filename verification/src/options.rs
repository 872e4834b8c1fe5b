//! Knobs for the output, and the analysis budgets that it needs.

use vstd::prelude::*;

use crate::text::{concat, lemma_concat_take};

verus! {

/// Knobs for the parts of the output that are a trade-off rather than a
/// straightforward rendering of the registry.
#[derive(Clone, Debug)]
pub struct Options {
    /// Emit `export type <Class>Init = { … }` payload aliases, so `construct`
    /// payload literals can be type-checked (`construct` itself takes an
    /// untyped `{ [string]: any }`; Luau cannot derive the payload type from
    /// the registration's `T`). Aliases are types only — nothing is claimed to
    /// exist at runtime.
    ///
    /// On by default. Worth turning off for a codebase that rarely calls
    /// `construct`: these are the one part of the output with a cost worth
    /// weighing — on a full Bevy registry, a tenth more file for roughly a
    /// third more `luau-lsp analyze` time, paid on every check.
    pub init_types: bool,
}

impl Default for Options {
    fn default() -> (r: Self)
        ensures
            r.init_types,
    {
        Options { init_types: true }
    }
}

/// The `luau-lsp` type-inference budgets a full registry's worth of definitions
/// needs, as `(flag, value)` pairs.
///
/// A real Bevy app produces hundreds of classes plus a closed `types` table over
/// all of them, which overruns luau's defaults ("Code is too complex to
/// typecheck"). Every consumer needs these in both CI and their editor config,
/// so the backend states them rather than leaving each project to rediscover
/// them: every generated file names them in its header comment, and
/// [`LuauLadPlugin::fflags_filename`](crate::plugin::LuauLadPlugin::fflags_filename)
/// asks for a companion file for tooling to read.
pub const FFLAGS: [(&'static str, &'static str); 5] = [
    ("LuauTypeInferIterationLimit", "10000000"),
    ("LuauTarjanChildLimit", "1000000"),
    ("LuauTypeCloneIterationLimit", "10000000"),
    ("LuauSolverConstraintLimit", "100000"),
    ("LuauTypeInferRecursionLimit", "2000"),
];

/// A flag as an argument of `luau-lsp analyze`.
pub open spec fn flag_argument(i: int) -> Seq<char> {
    "--flag:"@ + FFLAGS@[i].0@ + "="@ + FFLAGS@[i].1@
}

/// One line per flag, each with `prefix` in front.
pub open spec fn flag_lines(prefix: Seq<char>) -> Seq<Seq<char>> {
    Seq::new(5, |i: int| prefix + flag_argument(i) + "\n"@)
}

/// One line per flag, each with `prefix` in front.
pub fn push_flags(out: &mut String, prefix: &str)
    ensures
        final(out)@ == old(out)@ + concat(flag_lines(prefix@)),
{
    let ghost all = flag_lines(prefix@);
    let flags = FFLAGS;
    let mut piece = String::new();
    let mut i: usize = 0;
    assert(concat(all.take(0)) =~= Seq::<char>::empty());
    while i < 5
        invariant
            i <= 5,
            flags == FFLAGS,
            all == flag_lines(prefix@),
            piece@ == concat(all.take(i as int)),
        decreases 5 - i,
    {
        let mut argument = "--flag:".to_owned();
        argument.append(flags[i].0);
        argument.append("=");
        argument.append(flags[i].1);
        let mut line = prefix.to_owned();
        line.append(argument.as_str());
        line.append("\n");
        proof {
            lemma_concat_take(all, i as int);
        }
        piece.append(line.as_str());
        i += 1;
    }
    assert(all.take(i as int) =~= all);
    out.append(piece.as_str());
}

/// The [`FFLAGS`] as `luau-lsp analyze` arguments, one per line.
pub fn fflags_args() -> (r: String)
    ensures
        r@ == concat(flag_lines(Seq::empty())),
{
    let mut out = String::new();
    assert(""@ =~= Seq::<char>::empty()) by {
        reveal_strlit("");
    }
    push_flags(&mut out, "");
    assert(out@ =~= concat(flag_lines(Seq::empty())));
    out
}

} // verus!
