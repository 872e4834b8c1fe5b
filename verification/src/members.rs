//! Functions: the members of classes, and the global functions.

use vstd::prelude::*;

use crate::converter::{belongs_to, Converter};
use crate::docs::{optional_doc_comment, push_doc};
use crate::ident::{callable, callable_name};
use crate::lad::{LadFile, LadFunction, LadFunctionNamespace};
use crate::naming::{self, lemma_positions_where, positions_where, TypeNames};
use crate::order::{ints, lemma_ints_push};
use crate::overloads::{
    called_on_receiver, generic_marker, listed_args, overloads, Place, PlaceView, return_text,
    treatment_in,
};
use crate::signature::{params_text, push_signature_docs, signature_docs};
use crate::text::{concat, lemma_concat_take, option_text};

verus! {

/// The functions that belong to the type with the given id, in the file's
/// order.
pub open spec fn functions_of(lad: LadFile, id: Seq<char>) -> Seq<int> {
    positions_where(lad.functions@.len(), |j: int| naming::belongs_to(lad.functions@[j], id))
}

/// Whether a function is global.
pub open spec fn is_global(func: LadFunction) -> bool {
    func.namespace is Global
}

/// The global functions, in the file's order.
pub open spec fn global_functions(lad: LadFile) -> Seq<int> {
    positions_where(lad.functions@.len(), |j: int| is_global(lad.functions@[j]))
}

/// The parameters of a function in its place.
pub open spec fn listed_params(
    lad: LadFile,
    n: TypeNames,
    place: PlaceView,
    func: LadFunction,
) -> Seq<char> {
    params_text(lad, n, listed_args(lad, n, place, func), treatment_in(lad, n, place, func))
}

/// The documentation above a function.
pub open spec fn function_docs(
    lad: LadFile,
    n: TypeNames,
    place: PlaceView,
    func: LadFunction,
    indent: Seq<char>,
) -> Seq<char> {
    optional_doc_comment(option_text(func.documentation), indent)
        + signature_docs(indent, listed_args(lad, n, place, func), func.return_type)
}

/// What separates the receiver from the parameters behind it.
pub open spec fn receiver_separator(params: Seq<char>) -> Seq<char> {
    if params.len() == 0 {
        ""@
    } else {
        ", "@
    }
}

/// The declaration of a member under the given name: a colon-method if it has
/// a receiver, else a dot-callable function field. A generic method is a
/// function field that takes its receiver explicitly, since a colon-method
/// cannot be declared generic.
pub open spec fn member_declaration(
    lad: LadFile,
    n: TypeNames,
    place: PlaceView,
    func: LadFunction,
    name: Seq<char>,
) -> Seq<char> {
    let params = listed_params(lad, n, place, func);
    let ret = return_text(lad, n, place, func);
    if called_on_receiver(lad, n, place, func) {
        if treatment_in(lad, n, place, func) is Some {
            "\t"@ + name + ": <T>(self: "@ + place.owner->0 + receiver_separator(params) + params
                + ") -> "@ + ret + "\n"@
        } else {
            "\tfunction "@ + name + "(self"@ + receiver_separator(params) + params + "): "@ + ret
                + "\n"@
        }
    } else {
        "\t"@ + name + ": "@ + generic_marker(lad, n, place, func) + "("@ + params + ") -> "@ + ret
            + "\n"@
    }
}

/// A member with its documentation; nothing if its name cannot be used as a
/// binding.
pub open spec fn member_text(lad: LadFile, n: TypeNames, place: PlaceView, func: LadFunction) -> Seq<
    char,
> {
    match callable(func.identifier@) {
        Some(name) => function_docs(lad, n, place, func, "\t"@) + member_declaration(
            lad,
            n,
            place,
            func,
            name,
        ),
        None => Seq::empty(),
    }
}

/// The members of a class that are functions.
pub open spec fn member_texts(lad: LadFile, n: TypeNames, place: PlaceView, fns: Seq<int>) -> Seq<
    Seq<char>,
> {
    fns.map_values(|j: int| member_text(lad, n, place, lad.functions@[j]))
}

/// Where global functions are rendered.
pub open spec fn global_place() -> PlaceView {
    PlaceView { owner: None, is_base: false }
}

/// A global function with its documentation; nothing if its name cannot be
/// used as a binding.
pub open spec fn global_function_text(lad: LadFile, n: TypeNames, func: LadFunction) -> Seq<char> {
    let place = global_place();
    match callable(func.identifier@) {
        Some(name) => function_docs(lad, n, place, func, ""@) + (
        "declare function "@ + name + generic_marker(lad, n, place, func) + "("@ + listed_params(
            lad,
            n,
            place,
            func,
        ) + "): "@ + return_text(lad, n, place, func) + "\n\n"@),
        None => Seq::empty(),
    }
}

/// All global functions: copies collapsed, and sorted.
pub open spec fn global_function_texts(lad: LadFile, n: TypeNames) -> Seq<Seq<char>> {
    overloads(lad, n, global_place(), global_functions(lad)).map_values(
        |j: int| global_function_text(lad, n, lad.functions@[j]),
    )
}

/// The functions of a class are listed in the file's order, each once, and all
/// of them belong to it.
pub proof fn lemma_functions_of(lad: LadFile, id: Seq<char>)
    ensures
        forall|j: int| #[trigger]
            functions_of(lad, id).contains(j) <==> 0 <= j < lad.functions@.len()
                && naming::belongs_to(lad.functions@[j], id),
        forall|a: int, b: int|
            0 <= a < b < functions_of(lad, id).len() ==> #[trigger] functions_of(lad, id)[a]
                < #[trigger] functions_of(lad, id)[b],
{
    lemma_positions_where(lad.functions@.len(), |j: int| naming::belongs_to(lad.functions@[j], id));
}

/// The functions that belong to the type with the given id.
pub fn functions_of_type(lad: &LadFile, id: &str) -> (r: Vec<usize>)
    ensures
        ints(r@) == functions_of(*lad, id@),
        forall|k: int| 0 <= k < r@.len() ==> (#[trigger] r@[k]) < lad.functions@.len(),
{
    let ghost p = |j: int| naming::belongs_to(lad.functions@[j], id@);
    let mut out: Vec<usize> = Vec::new();
    let mut j: usize = 0;
    assert(ints(out@) =~= Seq::<int>::empty());
    while j < lad.functions.len()
        invariant
            j <= lad.functions@.len(),
            p == (|j: int| naming::belongs_to(lad.functions@[j], id@)),
            ints(out@) == positions_where(j as nat, p),
            forall|k: int| 0 <= k < out@.len() ==> (#[trigger] out@[k]) < lad.functions@.len(),
        decreases lad.functions@.len() - j,
    {
        if belongs_to(&lad.functions[j], id) {
            proof {
                lemma_ints_push(out@, j);
            }
            out.push(j);
        }
        j += 1;
    }
    out
}

/// The global functions.
fn functions_of_none(lad: &LadFile) -> (r: Vec<usize>)
    ensures
        ints(r@) == global_functions(*lad),
        forall|k: int| 0 <= k < r@.len() ==> (#[trigger] r@[k]) < lad.functions@.len(),
{
    let ghost p = |j: int| is_global(lad.functions@[j]);
    let mut out: Vec<usize> = Vec::new();
    let mut j: usize = 0;
    assert(ints(out@) =~= Seq::<int>::empty());
    while j < lad.functions.len()
        invariant
            j <= lad.functions@.len(),
            p == (|j: int| is_global(lad.functions@[j])),
            ints(out@) == positions_where(j as nat, p),
            forall|k: int| 0 <= k < out@.len() ==> (#[trigger] out@[k]) < lad.functions@.len(),
        decreases lad.functions@.len() - j,
    {
        let global = match &lad.functions[j].namespace {
            LadFunctionNamespace::Type(_) => false,
            LadFunctionNamespace::Global => true,
        };
        if global {
            proof {
                lemma_ints_push(out@, j);
            }
            out.push(j);
        }
        j += 1;
    }
    out
}

fn push_function_doc(out: &mut String, func: &LadFunction, indent: &str)
    ensures
        final(out)@ == old(out)@ + optional_doc_comment(option_text(func.documentation), indent@),
{
    match &func.documentation {
        Some(doc) => push_doc(out, doc.as_str(), indent),
        None => {
            assert(old(out)@ + Seq::<char>::empty() =~= old(out)@);
        },
    }
}

impl<'a> Converter<'a> {
    /// Render one associated function as a colon-method (if it has a receiver) or a
    /// dot-callable function field (if it is context-only). Luau has no generic
    /// colon-methods in definition files, so a generic method becomes a function
    /// field that names its receiver. Skipped entirely if its
    /// name is a Luau keyword — there is no backing for a renamed binding — and
    /// then warned about (see
    /// [`skipped_members`](Converter::skipped_members)).
    pub fn push_member(&self, out: &mut String, place: &Place, func: &LadFunction)
        requires
            self.wf(),
        ensures
            final(out)@ == old(out)@ + member_text(*self.lad, self@.types, place@, *func),
    {
        let name = match callable_name(func.identifier.as_str()) {
            Some(name) => name,
            None => {
                assert(old(out)@ + Seq::<char>::empty() =~= old(out)@);
                return;
            },
        };
        let (args, has_self, generic) = self.placed(place, func);
        let mut piece = String::new();
        push_function_doc(&mut piece, func, "\t");
        // The receiver's own doc is dropped along with the argument: it renders
        // as `self`, and BMS documents it as `_self`, which says nothing here.
        push_signature_docs(&mut piece, "\t", args, &func.return_type);
        assert(piece@ =~= function_docs(*self.lad, self@.types, place@, *func, "\t"@));
        let params = self.params(args, &generic);
        let ret = self.kind_g(&func.return_type.kind, generic.is_some());
        if has_self {
            let separator = if params.as_str().is_empty() {
                ""
            } else {
                ", "
            };
            if generic.is_some() {
                let mut line = "\t".to_owned();
                line.append(name.as_str());
                line.append(": <T>(self: ");
                if let Some(owner) = place.owner {
                    line.append(owner);
                }
                line.append(separator);
                line.append(params.as_str());
                line.append(") -> ");
                line.append(ret.as_str());
                line.append("\n");
                piece.append(line.as_str());
            } else {
                let mut line = "\tfunction ".to_owned();
                line.append(name.as_str());
                line.append("(self");
                line.append(separator);
                line.append(params.as_str());
                line.append("): ");
                line.append(ret.as_str());
                line.append("\n");
                piece.append(line.as_str());
            }
        } else {
            let mut line = "\t".to_owned();
            line.append(name.as_str());
            line.append(": ");
            line.append(
                if generic.is_some() {
                    "<T>"
                } else {
                    ""
                },
            );
            line.append("(");
            line.append(params.as_str());
            line.append(") -> ");
            line.append(ret.as_str());
            line.append("\n");
            piece.append(line.as_str());
        }
        out.append(piece.as_str());
    }

    /// The given functions as members of a class.
    pub fn members(&self, place: &Place, fns: &Vec<usize>) -> (r: String)
        requires
            self.wf(),
            forall|k: int| 0 <= k < fns@.len() ==> (#[trigger] fns@[k]) < self.lad.functions@.len(),
        ensures
            r@ == concat(member_texts(*self.lad, self@.types, place@, ints(fns@))),
    {
        let ghost all = member_texts(*self.lad, self@.types, place@, ints(fns@));
        let mut out = String::new();
        let mut k: usize = 0;
        assert(concat(all.take(0)) =~= Seq::<char>::empty());
        while k < fns.len()
            invariant
                k <= fns@.len(),
                self.wf(),
                forall|k: int|
                    0 <= k < fns@.len() ==> (#[trigger] fns@[k]) < self.lad.functions@.len(),
                all == member_texts(*self.lad, self@.types, place@, ints(fns@)),
                out@ == concat(all.take(k as int)),
            decreases fns@.len() - k,
        {
            proof {
                lemma_concat_take(all, k as int);
                assert(ints(fns@)[k as int] == fns@[k as int] as int);
            }
            self.push_member(&mut out, place, &self.lad.functions[fns[k]]);
            k += 1;
        }
        assert(all.take(k as int) =~= all);
        out
    }

    fn push_global_function(&self, out: &mut String, func: &LadFunction)
        requires
            self.wf(),
        ensures
            final(out)@ == old(out)@ + global_function_text(*self.lad, self@.types, *func),
    {
        let name = match callable_name(func.identifier.as_str()) {
            Some(name) => name,
            None => {
                assert(old(out)@ + Seq::<char>::empty() =~= old(out)@);
                return;
            },
        };
        let place = Place { owner: None, is_base: false };
        assert(place@ == global_place());
        let (args, _, generic) = self.placed(&place, func);
        let mut piece = String::new();
        push_function_doc(&mut piece, func, "");
        push_signature_docs(&mut piece, "", args, &func.return_type);
        assert(piece@ =~= function_docs(*self.lad, self@.types, place@, *func, ""@));
        let params = self.params(args, &generic);
        let ret = self.kind_g(&func.return_type.kind, generic.is_some());
        let mut line = "declare function ".to_owned();
        line.append(name.as_str());
        line.append(
            if generic.is_some() {
                "<T>"
            } else {
                ""
            },
        );
        line.append("(");
        line.append(params.as_str());
        line.append("): ");
        line.append(ret.as_str());
        line.append("\n\n");
        piece.append(line.as_str());
        out.append(piece.as_str());
    }

    /// The global functions.
    pub fn global_fns(&self) -> (r: String)
        requires
            self.wf(),
        ensures
            r@ == concat(global_function_texts(*self.lad, self@.types)),
    {
        let place = Place { owner: None, is_base: false };
        assert(place@ == global_place());
        let fns = self.dedupe_overloads(&place, &functions_of_none(self.lad));
        let ghost all = global_function_texts(*self.lad, self@.types);
        let mut out = String::new();
        let mut k: usize = 0;
        assert(concat(all.take(0)) =~= Seq::<char>::empty());
        assert(all.len() == ints(fns@).len());
        while k < fns.len()
            invariant
                k <= fns@.len(),
                self.wf(),
                forall|k: int|
                    0 <= k < fns@.len() ==> (#[trigger] fns@[k]) < self.lad.functions@.len(),
                ints(fns@) == overloads(
                    *self.lad,
                    self@.types,
                    global_place(),
                    global_functions(*self.lad),
                ),
                all == global_function_texts(*self.lad, self@.types),
                all.len() == fns@.len(),
                out@ == concat(all.take(k as int)),
            decreases fns@.len() - k,
        {
            proof {
                lemma_concat_take(all, k as int);
                assert(ints(fns@)[k as int] == fns@[k as int] as int);
            }
            self.push_global_function(&mut out, &self.lad.functions[fns[k]]);
            k += 1;
        }
        assert(all.take(k as int) =~= all);
        out
    }
}

} // verus!
