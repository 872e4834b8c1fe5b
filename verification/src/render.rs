//! The definition file as a whole.

use vstd::prelude::*;

use crate::classes::{class_texts, registration_table};
use crate::converter::{Converter, option_int};
use crate::ident::{callable, callable_name};
use crate::lad::{LadFieldOrVariableKind, LadFile, LadInstance};
use crate::members::{functions_of, functions_of_type, global_function_texts, member_texts};
use crate::naming::{
    BRANDS, lemma_positions_where, Naming, naming, positions_where, REFLECT_REFERENCE_CLASS,
    TypeNames,
};
use crate::options::{flag_lines, Options, push_flags};
use crate::order::{
    at_positions, ints, key_texts, lemma_ints_push, lemma_sorted_contains, plain_keys,
    sorted_by_keys, sorted_positions,
};
use crate::overloads::{overloads, Place, PlaceView};
use crate::text::{concat, lemma_concat_take, same_text};
use crate::types::{kind_text, type_text};

verus! {

/// The comment that opens the file, up to the list of flags.
pub const HEADER: &'static str =
    "--!strict\n-- AUTO-GENERATED from the Bevy reflection registry via luau_lad_backend.\n-- Do not edit by hand.\n--\n-- A registry this size overruns luau's default type-inference budgets.\n-- Analyze with:\n";

/// The comment that opens the file, from the list of flags on.
pub const HEADER_END: &'static str =
    "-- (or the equivalent `luau-lsp.fflags.override` editor setting).\n\n";

/// The comment that opens the file. It names every flag.
pub open spec fn header_text() -> Seq<char> {
    HEADER@ + concat(flag_lines("--     "@)) + HEADER_END@
}

/// The declaration of a brand, if there is a registration type for it.
pub open spec fn brand_line(lad: LadFile, n: TypeNames, b: int) -> Seq<char> {
    match n.regs[b] {
        Some(i) => "export type "@ + BRANDS@[b].1@ + "<T> = "@ + type_text(
            lad,
            n,
            lad.types@[i].0@,
        ) + " & { "@ + BRANDS@[b].2@ + ": T }\n"@,
        None => Seq::empty(),
    }
}

/// The declarations of the brands.
pub open spec fn brands_text(lad: LadFile, n: TypeNames) -> Seq<char> {
    brand_line(lad, n, 0) + brand_line(lad, n, 1) + brand_line(lad, n, 2) + (if n.regs[0] is Some
        || n.regs[1] is Some || n.regs[2] is Some {
        "\n"@
    } else {
        ""@
    })
}

/// Where the members of the base class are rendered.
pub open spec fn base_place() -> PlaceView {
    PlaceView { owner: Some(REFLECT_REFERENCE_CLASS@), is_base: true }
}

/// The functions that the base class has as members.
pub open spec fn base_functions(lad: LadFile, n: TypeNames, reference: int) -> Seq<int> {
    overloads(lad, n, base_place(), functions_of(lad, lad.types@[reference].0@))
}

/// The shared reference-proxy base class, if the file records it.
pub open spec fn base_text(lad: LadFile, n: Naming) -> Seq<char> {
    match n.reflect_ref {
        Some(reference) => "declare extern type "@ + REFLECT_REFERENCE_CLASS@ + " with\n"@
            + concat(
            member_texts(lad, n.types, base_place(), base_functions(lad, n.types, reference)),
        ) + "end\n\n"@,
        None => Seq::empty(),
    }
}

/// The type of a global instance.
pub open spec fn instance_type(lad: LadFile, n: TypeNames, instance: LadInstance) -> Seq<char> {
    match registration_table(lad, n, instance.type_kind) {
        Some(table) => table,
        None => kind_text(lad, n, instance.type_kind, false),
    }
}

/// Whether a global instance is declared: its name can be used as a binding,
/// and it is more than an untyped primitive.
pub open spec fn is_shown(lad: LadFile, n: TypeNames, k: int) -> bool {
    callable(lad.globals@[k].0@) is Some && !(instance_type(
        lad,
        n,
        lad.globals@[k].1,
    ) == "any"@ && lad.globals@[k].1.type_kind is Primitive)
}

/// The global instances that are declared, in the file's order.
pub open spec fn shown_globals(lad: LadFile, n: TypeNames) -> Seq<int> {
    positions_where(lad.globals@.len(), |k: int| is_shown(lad, n, k))
}

/// The name that a global instance is declared under.
pub open spec fn instance_name(lad: LadFile, k: int) -> Seq<char> {
    callable(lad.globals@[k].0@)->0
}

/// The global instances that are declared, in order of their names.
pub open spec fn globals_order(lad: LadFile, n: TypeNames) -> Seq<int> {
    at_positions(
        shown_globals(lad, n),
        sorted_positions(
            plain_keys(shown_globals(lad, n).map_values(|k: int| instance_name(lad, k))),
        ),
    )
}

/// The declaration of a global instance.
pub open spec fn global_line(lad: LadFile, n: TypeNames, k: int) -> Seq<char> {
    "declare "@ + instance_name(lad, k) + ": "@ + instance_type(lad, n, lad.globals@[k].1) + "\n"@
}

/// The declarations of the global instances.
pub open spec fn global_lines(lad: LadFile, n: TypeNames) -> Seq<Seq<char>> {
    globals_order(lad, n).map_values(|k: int| global_line(lad, n, k))
}

/// The definition file for a LAD file under the names decided for it.
pub open spec fn file_text(lad: LadFile, n: Naming) -> Seq<char> {
    header_text() + brands_text(lad, n.types) + base_text(lad, n) + concat(
        class_texts(lad, n),
    ) + concat(global_function_texts(lad, n.types)) + concat(global_lines(lad, n.types))
}

/// The definition file for a LAD file.
pub open spec fn luau_text(lad: LadFile, options: Options) -> Seq<char> {
    file_text(lad, naming(lad, options))
}

/// The comment that opens the file. It names the flags unconditionally: "Code is
/// too complex to typecheck" is the first thing a consumer hits, and a comment
/// costs nothing to check past.
fn header() -> (r: String)
    ensures
        r@ == header_text(),
{
    let mut out = HEADER.to_owned();
    push_flags(&mut out, "--     ");
    out.append(HEADER_END);
    out
}

fn is_primitive(kind: &LadFieldOrVariableKind) -> (r: bool)
    ensures
        r == (kind is Primitive),
{
    match kind {
        LadFieldOrVariableKind::Primitive(_) => true,
        _ => false,
    }
}

impl<'a> Converter<'a> {
    fn brand(&self, b: usize) -> (r: String)
        requires
            self.wf(),
            b < 3,
        ensures
            r@ == brand_line(*self.lad, self@.types, b as int),
    {
        assert(self@.types.regs[b as int] == option_int(self.regs@[b as int]));
        match self.regs[b] {
            Some(i) => {
                let brands = BRANDS;
                let mut out = "export type ".to_owned();
                out.append(brands[b].1);
                out.append("<T> = ");
                out.append(self.type_id_name(&self.lad.types[i].0).as_str());
                out.append(" & { ");
                out.append(brands[b].2);
                out.append(": T }\n");
                out
            },
            None => String::new(),
        }
    }

    /// Phantom-typed registration brands. The phantom field never exists at
    /// runtime; it only carries `T` through generic signatures. Forward
    /// references are legal in definition files, so these can lead the file.
    fn brands(&self) -> (r: String)
        requires
            self.wf(),
        ensures
            r@ == brands_text(*self.lad, self@.types),
    {
        proof {
            assert(self@.types.regs[0] == option_int(self.regs@[0]));
            assert(self@.types.regs[1] == option_int(self.regs@[1]));
            assert(self@.types.regs[2] == option_int(self.regs@[2]));
        }
        let mut out = self.brand(0);
        out.append(self.brand(1).as_str());
        out.append(self.brand(2).as_str());
        out.append(
            if self.regs[0].is_some() || self.regs[1].is_some() || self.regs[2].is_some() {
                "\n"
            } else {
                ""
            },
        );
        out
    }

    /// The shared reference-proxy base class. At runtime every value of a
    /// declared class is a `ReflectReference` proxy which resolves fields
    /// first and falls back to these namespaced functions, so declaring
    /// them once here and having every class extend it mirrors the actual
    /// dispatch (subclass members legitimately shadow these).
    fn base_class(&self) -> (r: String)
        requires
            self.wf(),
        ensures
            r@ == base_text(*self.lad, self@),
    {
        match self.reflect_ref {
            Some(reference) => {
                let mut out = "declare extern type ".to_owned();
                out.append(REFLECT_REFERENCE_CLASS);
                out.append(" with\n");
                let place = Place { owner: Some(REFLECT_REFERENCE_CLASS), is_base: true };
                assert(place@ == base_place());
                let fns = self.dedupe_overloads(
                    &place,
                    &functions_of_type(self.lad, self.lad.types[reference].0.0.as_str()),
                );
                out.append(self.members(&place, &fns).as_str());
                out.append("end\n\n");
                out
            },
            None => String::new(),
        }
    }

    fn type_of_instance(&self, instance: &LadInstance) -> (r: String)
        requires
            self.wf(),
        ensures
            r@ == instance_type(*self.lad, self@.types, *instance),
    {
        match self.registration_map(&instance.type_kind) {
            Some(table) => table,
            None => self.kind(&instance.type_kind),
        }
    }

    /// Global instances (`world`, the static type accessors, …). Untyped
    /// primitives carry no useful surface, so they are skipped.
    fn globals(&self) -> (r: String)
        requires
            self.wf(),
        ensures
            r@ == concat(global_lines(*self.lad, self@.types)),
    {
        let ghost p = |k: int| is_shown(*self.lad, self@.types, k);
        let ghost names = shown_globals(*self.lad, self@.types).map_values(
            |k: int| instance_name(*self.lad, k),
        );
        let mut shown: Vec<usize> = Vec::new();
        let mut keys: Vec<(String, String)> = Vec::new();
        let mut k: usize = 0;
        assert(ints(shown@) =~= positions_where(0, p));
        while k < self.lad.globals.len()
            invariant
                k <= self.lad.globals@.len(),
                self.wf(),
                p == (|k: int| is_shown(*self.lad, self@.types, k)),
                ints(shown@) == positions_where(k as nat, p),
                shown@.len() == keys@.len(),
                forall|j: int|
                    0 <= j < shown@.len() ==> (#[trigger] shown@[j]) < self.lad.globals@.len() && (
                    keys@[j].0@, keys@[j].1@) == (
                        instance_name(*self.lad, shown@[j] as int),
                        Seq::<char>::empty(),
                    ),
            decreases self.lad.globals@.len() - k,
        {
            let global = &self.lad.globals[k];
            if let Some(name) = callable_name(global.0.as_str()) {
                let ty = self.type_of_instance(&global.1);
                if !(same_text(ty.as_str(), "any") && is_primitive(&global.1.type_kind)) {
                    proof {
                        lemma_ints_push(shown@, k);
                    }
                    shown.push(k);
                    keys.push((name, String::new()));
                }
            }
            k += 1;
        }
        proof {
            assert(key_texts(keys@) =~= plain_keys(names)) by {
                assert(names.len() == ints(shown@).len());
                assert forall|j: int| 0 <= j < keys@.len() implies key_texts(
                    keys@,
                )[j] == plain_keys(names)[j] by {
                    assert(ints(shown@)[j] == shown@[j] as int);
                }
            }
        }
        let order = sorted_by_keys(&shown, &keys);
        proof {
            lemma_positions_where(self.lad.globals@.len(), p);
            lemma_sorted_contains(shown_globals(*self.lad, self@.types), plain_keys(names));
            assert forall|j: int| 0 <= j < order@.len() implies (#[trigger] order@[j])
                < self.lad.globals@.len() && is_shown(*self.lad, self@.types, order@[j] as int) by {
                assert(ints(order@).contains(ints(order@)[j]));
                assert(p(order@[j] as int));
            }
        }
        self.declare_globals(&order)
    }

    fn declare_globals(&self, order: &Vec<usize>) -> (r: String)
        requires
            self.wf(),
            ints(order@) == globals_order(*self.lad, self@.types),
            forall|j: int|
                0 <= j < order@.len() ==> (#[trigger] order@[j]) < self.lad.globals@.len()
                    && is_shown(*self.lad, self@.types, order@[j] as int),
        ensures
            r@ == concat(global_lines(*self.lad, self@.types)),
    {
        let ghost all = global_lines(*self.lad, self@.types);
        let mut out = String::new();
        let mut j: usize = 0;
        assert(concat(all.take(0)) =~= Seq::<char>::empty());
        assert(all.len() == ints(order@).len());
        while j < order.len()
            invariant
                j <= order@.len(),
                self.wf(),
                ints(order@) == globals_order(*self.lad, self@.types),
                forall|j: int|
                    0 <= j < order@.len() ==> (#[trigger] order@[j]) < self.lad.globals@.len()
                        && is_shown(*self.lad, self@.types, order@[j] as int),
                all == global_lines(*self.lad, self@.types),
                all.len() == order@.len(),
                out@ == concat(all.take(j as int)),
            decreases order@.len() - j,
        {
            let global = &self.lad.globals[order[j]];
            proof {
                lemma_concat_take(all, j as int);
                assert(ints(order@)[j as int] == order@[j as int] as int);
            }
            if let Some(name) = callable_name(global.0.as_str()) {
                let mut line = "declare ".to_owned();
                line.append(name.as_str());
                line.append(": ");
                line.append(self.type_of_instance(&global.1).as_str());
                line.append("\n");
                out.append(line.as_str());
            }
            j += 1;
        }
        assert(all.take(j as int) =~= all);
        out
    }

    /// The definition file.
    pub fn render(&self) -> (r: String)
        requires
            self.wf(),
        ensures
            r@ == file_text(*self.lad, self@),
    {
        let mut out = header();
        out.append(self.brands().as_str());
        out.append(self.base_class().as_str());
        out.append(self.classes().as_str());
        out.append(self.global_fns().as_str());
        out.append(self.globals().as_str());
        out
    }
}

} // verus!
