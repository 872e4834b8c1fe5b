//! Classes: the declaration of each type, with the aliases exported next to it.

use vstd::prelude::*;

use crate::converter::{self, Converter, option_int};
use crate::docs::{optional_doc_comment, push_doc};
use crate::fields::{
    enum_members, field_keys, fields_of_variants, keys_of, payload_entries, quoted_variants,
    struct_members, variant_fields, variant_union,
};
use crate::ident::{callable, callable_name};
use crate::lad::{LadFieldOrVariableKind, LadFile, LadTypeDefinition, LadTypeLayout, LadVariant};
use crate::members::{functions_of, functions_of_type, member_texts};
use crate::naming::{
    self, BRANDS, lemma_positions_where, Naming, positions_where, REFLECT_REFERENCE_CLASS,
    TypeNames,
};
use crate::order::{
    at_positions, ints, key_texts, law_sorted_positions, lemma_ints_push, lemma_sorted_contains,
    plain_keys, precedes, sorted_by_keys, sorted_positions,
};
use crate::overloads::{overloads, Place, PlaceView};
use crate::text::{
    concat, contains_text, joined, lemma_concat_take, lemma_occurs_in_concat, lemma_occurs_in_left,
    lemma_occurs_in_right, lemma_occurs_in_self, lemma_text_le_reflexive, occurs_in, option_text,
    same_text, text_le,
};
use crate::types::{branded, kind_text};

verus! {

/// Whether a type has a class name.
pub open spec fn is_named(n: TypeNames, i: int) -> bool {
    n.names[i] is Some
}

/// The types that have a class name, in the file's order.
pub open spec fn named_types(n: TypeNames) -> Seq<int> {
    positions_where(n.names.len(), |i: int| is_named(n, i))
}

/// The order in which classes are declared: by name.
pub open spec fn class_order(n: TypeNames) -> Seq<int> {
    at_positions(
        named_types(n),
        sorted_positions(plain_keys(named_types(n).map_values(|i: int| n.names[i]->0))),
    )
}

/// The brand of a type's registration.
pub open spec fn brand_index(def: LadTypeDefinition) -> int {
    if def.metadata.is_component {
        0
    } else if def.metadata.is_resource {
        1
    } else {
        2
    }
}

/// Whether a type is known to the `types` table under its class name: it is no
/// instance of a generic type, its name is the one it has at runtime, and
/// there is a registration type for it.
pub open spec fn has_table_entry(lad: LadFile, n: TypeNames, i: int) -> bool {
    let def = lad.types@[i].1;
    def.generics@.len() == 0 && def.identifier@ == n.names[i]->0 && n.regs[brand_index(def)]
        is Some
}

/// The entry of a type in the `types` table.
pub open spec fn table_entry(lad: LadFile, n: TypeNames, i: int) -> Seq<char> {
    if has_table_entry(lad, n, i) {
        "\t"@ + n.names[i]->0 + ": "@ + BRANDS@[brand_index(lad.types@[i].1)].1@ + "<"@
            + n.names[i]->0 + ">,\n"@
    } else {
        Seq::empty()
    }
}

/// The entries of the `types` table.
pub open spec fn table_entries(lad: LadFile, n: TypeNames) -> Seq<Seq<char>> {
    class_order(n).map_values(|i: int| table_entry(lad, n, i))
}

/// If a kind is a map from strings to registrations, the closed table that
/// types each known type's entry with its brand.
pub open spec fn registration_table(
    lad: LadFile,
    n: TypeNames,
    kind: LadFieldOrVariableKind,
) -> Option<Seq<char>> {
    match kind {
        LadFieldOrVariableKind::HashMap(key, value) => if kind_text(
            lad,
            n,
            *key,
            false,
        ) == "string"@ && branded(lad, n, *value) is Some {
            Some(
                "{\n"@ + concat(table_entries(lad, n)) + "\t[string]: "@
                    + kind_text(lad, n, *value, false) + ",\n}"@,
            )
        } else {
            None
        },
        _ => None,
    }
}

/// The variant-name union of an enum.
pub open spec fn variant_union_text(lad: LadFile, n: Naming, i: int) -> Seq<char> {
    match (n.variant_aliases[i], lad.types@[i].1.layout) {
        (Some(alias), LadTypeLayout::Enum(variants)) => "export type "@ + alias + " = "@
            + joined(quoted_variants(variants@), " | "@) + "\n"@,
        _ => Seq::empty(),
    }
}

/// The `construct` payload alias of a type.
pub open spec fn payload_text(lad: LadFile, n: Naming, i: int) -> Seq<char> {
    match n.init_aliases[i] {
        Some(alias) => match lad.types@[i].1.layout {
            LadTypeLayout::MonoVariant(LadVariant::Struct { name: _, fields }) => "export type "@
                + alias + " = {\n"@ + concat(payload_entries(lad, n.types, fields@)) + "}\n"@,
            LadTypeLayout::Enum(_) => match n.variant_aliases[i] {
                Some(variant) => "export type "@ + alias + " = { variant: "@ + variant + " }\n"@,
                None => Seq::empty(),
            },
            _ => Seq::empty(),
        },
        None => Seq::empty(),
    }
}

/// Where the members of a class are rendered.
pub open spec fn class_place(n: TypeNames, i: int) -> PlaceView {
    PlaceView { owner: n.names[i], is_base: false }
}

/// What a class extends.
pub open spec fn extends_text(n: Naming) -> Seq<char> {
    if n.reflect_ref is Some {
        " extends "@ + REFLECT_REFERENCE_CLASS@
    } else {
        ""@
    }
}

/// The members that a class has from its layout.
pub open spec fn layout_members(lad: LadFile, n: Naming, i: int) -> Seq<char> {
    match lad.types@[i].1.layout {
        LadTypeLayout::MonoVariant(LadVariant::Struct { name: _, fields }) => concat(
            struct_members(lad, n.types, fields@),
        ),
        LadTypeLayout::Enum(variants) => concat(
            enum_members(lad, n.types, variant_fields(variants@)),
        ),
        _ => Seq::empty(),
    }
}

/// Whether an enum has a member of its own that is rendered under the name of
/// `variant_name`.
pub open spec fn shadows_variant_name(lad: LadFile, i: int, variants: Seq<LadVariant>) -> bool {
    ||| field_keys(variant_fields(variants)).contains("variant_name"@)
    ||| exists|j: int|
        0 <= j < lad.functions@.len() && naming::belongs_to(
            #[trigger] lad.functions@[j],
            lad.types@[i].0@,
        ) && callable(lad.functions@[j].identifier@) == Some("variant_name"@)
}

/// Typed variant inspection, narrowing the base class's `variant_name`.
pub open spec fn variant_name_override(lad: LadFile, n: Naming, i: int) -> Seq<char> {
    match (lad.types@[i].1.layout, n.variant_aliases[i]) {
        (LadTypeLayout::Enum(variants), Some(alias)) => if n.has_variant_name
            && !shadows_variant_name(lad, i, variants@) {
            "\tfunction variant_name(self): "@ + alias + "\n"@
        } else {
            Seq::empty()
        },
        _ => Seq::empty(),
    }
}

/// The functions that a class has as members.
pub open spec fn class_functions(lad: LadFile, n: TypeNames, i: int) -> Seq<int> {
    overloads(lad, n, class_place(n, i), functions_of(lad, lad.types@[i].0@))
}

/// The line that opens a class.
pub open spec fn class_head(n: Naming, i: int) -> Seq<char> {
    "declare extern type "@ + n.types.names[i]->0 + extends_text(n) + " with\n"@
}

/// The declaration of a type.
pub open spec fn class_declaration(lad: LadFile, n: Naming, i: int) -> Seq<char> {
    optional_doc_comment(
        option_text(lad.types@[i].1.documentation),
        ""@,
    ) + class_head(n, i) + layout_members(lad, n, i) + variant_name_override(lad, n, i)
        + concat(
        member_texts(lad, n.types, class_place(n.types, i), class_functions(lad, n.types, i)),
    ) + "end\n\n"@
}

/// The declaration of a type, with the aliases exported next to it.
pub open spec fn class_text(lad: LadFile, n: Naming, i: int) -> Seq<char> {
    variant_union_text(lad, n, i) + payload_text(lad, n, i) + class_declaration(lad, n, i)
}

/// The declarations of all types.
pub open spec fn class_texts(lad: LadFile, n: Naming) -> Seq<Seq<char>> {
    class_order(n.types).map_values(|i: int| class_text(lad, n, i))
}

/// Classes are declared in ascending order of their names, each type with a
/// name exactly once.
pub proof fn law_class_order(n: TypeNames)
    ensures
        class_order(n).no_duplicates(),
        forall|i: int| #[trigger]
            class_order(n).contains(i) <==> 0 <= i < n.names.len() && n.names[i] is Some,
        forall|a: int, b: int|
            0 <= a < b < class_order(n).len() ==> text_le(
                n.names[#[trigger] class_order(n)[a]]->0,
                n.names[#[trigger] class_order(n)[b]]->0,
            ),
{
    let list = named_types(n);
    let names = list.map_values(|i: int| n.names[i]->0);
    let keys = plain_keys(names);
    let positions = sorted_positions(keys);
    let order = class_order(n);
    lemma_positions_where(n.names.len(), |i: int| is_named(n, i));
    lemma_sorted_contains(list, keys);
    law_sorted_positions(keys);
    assert forall|a: int, b: int| 0 <= a < b < order.len() implies text_le(
        n.names[#[trigger] order[a]]->0,
        n.names[#[trigger] order[b]]->0,
    ) by {
        assert(positions.contains(positions[a]));
        assert(positions.contains(positions[b]));
        assert(precedes(keys, positions[a], positions[b]));
        if keys[positions[a]] == keys[positions[b]] {
            lemma_text_le_reflexive(names[positions[a]]);
        }
    }
}

/// The `types` table lists every type that is known to it.
pub proof fn law_table_lists_known_types(
    lad: LadFile,
    n: TypeNames,
    kind: LadFieldOrVariableKind,
    i: int,
)
    requires
        registration_table(lad, n, kind) is Some,
        0 <= i < n.names.len(),
        n.names[i] is Some,
        has_table_entry(lad, n, i),
    ensures
        occurs_in(table_entry(lad, n, i), registration_table(lad, n, kind)->0),
{
    let entry = table_entry(lad, n, i);
    let entries = table_entries(lad, n);
    let order = class_order(n);
    law_class_order(n);
    assert(order.contains(i));
    let k = choose|k: int| 0 <= k < order.len() && order[k] == i;
    assert(entries[k] == entry);
    lemma_occurs_in_self(entry);
    lemma_occurs_in_concat(entry, entries, k);
    lemma_occurs_in_right(entry, "{\n"@, concat(entries));
    lemma_occurs_in_left(entry, "{\n"@ + concat(entries), "\t[string]: "@);
    if let LadFieldOrVariableKind::HashMap(_, value) = kind {
        let fallback = kind_text(lad, n, *value, false);
        lemma_occurs_in_left(entry, "{\n"@ + concat(entries) + "\t[string]: "@, fallback);
        lemma_occurs_in_left(
            entry,
            "{\n"@ + concat(entries) + "\t[string]: "@ + fallback,
            ",\n}"@,
        );
    }
}

/// Whether `raw` is bound under the given name.
fn bound_as(raw: &str, name: &str) -> (r: bool)
    ensures
        r == (callable(raw@) == Some(name@)),
{
    match callable_name(raw) {
        Some(own) => same_text(own.as_str(), name),
        None => false,
    }
}

fn index_of_brand(def: &LadTypeDefinition) -> (r: usize)
    ensures
        r == brand_index(*def),
        r < 3,
{
    if def.metadata.is_component {
        0
    } else if def.metadata.is_resource {
        1
    } else {
        2
    }
}

impl<'a> Converter<'a> {
    /// The types that have a class name, in order of their names.
    pub fn classes_by_name(&self) -> (r: Vec<usize>)
        requires
            self.wf(),
        ensures
            ints(r@) == class_order(self@.types),
            forall|k: int|
                0 <= k < r@.len() ==> (#[trigger] r@[k]) < self.lad.types@.len()
                    && self.names@[r@[k] as int] is Some,
    {
        let ghost p = |i: int| is_named(self@.types, i);
        let ghost list = named_types(self@.types);
        let ghost names = list.map_values(|i: int| self@.types.names[i]->0);
        let mut named: Vec<usize> = Vec::new();
        let mut keys: Vec<(String, String)> = Vec::new();
        let mut i: usize = 0;
        assert(self@.types.names.len() == self.names@.len());
        assert(ints(named@) =~= positions_where(0, p));
        while i < self.names.len()
            invariant
                i <= self.names@.len(),
                self@.types.names.len() == self.names@.len(),
                p == (|i: int| is_named(self@.types, i)),
                ints(named@) == positions_where(i as nat, p),
                named@.len() == keys@.len(),
                forall|k: int|
                    0 <= k < named@.len() ==> (#[trigger] named@[k]) < self.names@.len() && (
                    keys@[k].0@, keys@[k].1@) == (
                        self@.types.names[named@[k] as int]->0,
                        Seq::<char>::empty(),
                    ),
            decreases self.names@.len() - i,
        {
            assert(self@.types.names[i as int] == option_text(self.names@[i as int]));
            if let Some(name) = &self.names[i] {
                proof {
                    lemma_ints_push(named@, i);
                }
                named.push(i);
                keys.push((name.clone(), String::new()));
            }
            i += 1;
        }
        proof {
            assert(key_texts(keys@) =~= plain_keys(names)) by {
                assert(names.len() == ints(named@).len());
                assert forall|k: int| 0 <= k < keys@.len() implies key_texts(
                    keys@,
                )[k] == plain_keys(names)[k] by {
                    assert(ints(named@)[k] == named@[k] as int);
                }
            }
        }
        let r = sorted_by_keys(&named, &keys);
        proof {
            law_class_order(self@.types);
            assert forall|k: int| 0 <= k < r@.len() implies (#[trigger] r@[k])
                < self.lad.types@.len() && self.names@[r@[k] as int] is Some by {
                assert(ints(r@).contains(ints(r@)[k]));
                assert(self@.types.names[r@[k] as int] == option_text(self.names@[r@[k] as int]));
            }
        }
        r
    }

    fn push_table_entry(&self, out: &mut String, i: usize, name: &str)
        requires
            self.wf(),
            i < self.lad.types@.len(),
            self@.types.names[i as int] == Some(name@),
        ensures
            final(out)@ == old(out)@ + table_entry(*self.lad, self@.types, i as int),
    {
        let def = &self.lad.types[i].1;
        let b: usize = index_of_brand(def);
        assert(self@.types.regs[b as int] == option_int(self.regs@[b as int]));
        if def.generics.len() == 0 && same_text(def.identifier.as_str(), name)
            && self.regs[b].is_some() {
            let brands = BRANDS;
            let mut line = "\t".to_owned();
            line.append(name);
            line.append(": ");
            line.append(brands[b].1);
            line.append("<");
            line.append(name);
            line.append(">,\n");
            out.append(line.as_str());
        } else {
            assert(old(out)@ + Seq::<char>::empty() =~= old(out)@);
        }
    }

    fn known_entries(&self) -> (r: String)
        requires
            self.wf(),
        ensures
            r@ == concat(table_entries(*self.lad, self@.types)),
    {
        let order = self.classes_by_name();
        let ghost all = table_entries(*self.lad, self@.types);
        let mut out = String::new();
        let mut k: usize = 0;
        assert(concat(all.take(0)) =~= Seq::<char>::empty());
        assert(all.len() == ints(order@).len());
        while k < order.len()
            invariant
                k <= order@.len(),
                self.wf(),
                ints(order@) == class_order(self@.types),
                forall|k: int|
                    0 <= k < order@.len() ==> (#[trigger] order@[k]) < self.lad.types@.len()
                        && self.names@[order@[k] as int] is Some,
                all == table_entries(*self.lad, self@.types),
                all.len() == order@.len(),
                out@ == concat(all.take(k as int)),
            decreases order@.len() - k,
        {
            proof {
                lemma_concat_take(all, k as int);
                assert(ints(order@)[k as int] == order@[k as int] as int);
                assert(self@.types.names[order@[k as int] as int] == option_text(
                    self.names@[order@[k as int] as int],
                ));
            }
            if let Some(name) = &self.names[order[k]] {
                self.push_table_entry(&mut out, order[k], name.as_str());
            }
            k += 1;
        }
        assert(all.take(k as int) =~= all);
        out
    }

    /// If `kind` is `HashMap<string, registration-union>` — the shape of BMS's
    /// `types` global — render it as a closed table typing each known type's entry
    /// with its phantom brand, with the original union as an indexer fallback.
    /// Runtime keys are Bevy short paths, which match the LAD identifier exactly
    /// for non-generic types; anything else (generic monomorphisations, sanitised
    /// or de-duplicated names) is left to the fallback.
    pub fn registration_map(&self, kind: &LadFieldOrVariableKind) -> (r: Option<String>)
        requires
            self.wf(),
        ensures
            option_text(r) == registration_table(*self.lad, self@.types, *kind),
    {
        match kind {
            LadFieldOrVariableKind::HashMap(key, value) => {
                if same_text(self.kind(key).as_str(), "string") && self.registration_brand(
                    value,
                ).is_some() {
                    let mut out = "{\n".to_owned();
                    out.append(self.known_entries().as_str());
                    out.append("\t[string]: ");
                    out.append(self.kind(value).as_str());
                    out.append(",\n}");
                    Some(out)
                } else {
                    None
                }
            },
            _ => None,
        }
    }

    fn variant_union_line(&self, i: usize) -> (r: String)
        requires
            self.wf(),
            i < self.lad.types@.len(),
        ensures
            r@ == variant_union_text(*self.lad, self@, i as int),
    {
        assert(self@.variant_aliases[i as int] == option_text(self.variant_aliases@[i as int]));
        match (&self.variant_aliases[i], &self.lad.types[i].1.layout) {
            (Some(alias), LadTypeLayout::Enum(variants)) => {
                let mut out = "export type ".to_owned();
                out.append(alias.as_str());
                out.append(" = ");
                out.append(variant_union(variants).as_str());
                out.append("\n");
                out
            },
            _ => String::new(),
        }
    }

    fn payload_alias(&self, i: usize) -> (r: String)
        requires
            self.wf(),
            i < self.lad.types@.len(),
        ensures
            r@ == payload_text(*self.lad, self@, i as int),
    {
        assert(self@.variant_aliases[i as int] == option_text(self.variant_aliases@[i as int]));
        assert(self@.init_aliases[i as int] == option_text(self.init_aliases@[i as int]));
        match &self.init_aliases[i] {
            Some(alias) => match &self.lad.types[i].1.layout {
                LadTypeLayout::MonoVariant(LadVariant::Struct { fields, .. }) => {
                    let mut out = "export type ".to_owned();
                    out.append(alias.as_str());
                    out.append(" = {\n");
                    out.append(self.payload_fields(fields).as_str());
                    out.append("}\n");
                    out
                },
                // A unit/enum value crosses the boundary as its variant name.
                LadTypeLayout::Enum(_) => match &self.variant_aliases[i] {
                    Some(variant) => {
                        let mut out = "export type ".to_owned();
                        out.append(alias.as_str());
                        out.append(" = { variant: ");
                        out.append(variant.as_str());
                        out.append(" }\n");
                        out
                    },
                    None => String::new(),
                },
                _ => String::new(),
            },
            None => String::new(),
        }
    }

    fn fields_of_class(&self, i: usize) -> (r: String)
        requires
            self.wf(),
            i < self.lad.types@.len(),
        ensures
            r@ == layout_members(*self.lad, self@, i as int),
    {
        match &self.lad.types[i].1.layout {
            // Named struct fields of a plain struct. These are always present
            // on a live reference — a struct has no inactive variant to hide
            // them — so they are *not* optional; only enum variant fields
            // below earn that. Keyword names are preserved via a quoted key
            // (`["end"]`), which is genuinely backed by reflect indexing.
            LadTypeLayout::MonoVariant(LadVariant::Struct { fields, .. }) => self.struct_fields(
                fields,
            ),
            // Enums: named fields of all struct variants, merged (a field may
            // belong to an inactive variant, so optionality is doubly earned;
            // same-named fields of different types union). Tuple variants have
            // no honest member representation yet and are omitted, matching
            // the tuple-struct fallback.
            LadTypeLayout::Enum(variants) => self.enum_fields(variants),
            _ => String::new(),
        }
    }

    /// Whether an enum has a member of its own that is rendered under the name of
    /// `variant_name`.
    fn has_own_variant_name(&self, i: usize, variants: &Vec<LadVariant>) -> (r: bool)
        requires
            self.wf(),
            i < self.lad.types@.len(),
        ensures
            r == shadows_variant_name(*self.lad, i as int, variants@),
    {
        let keys = keys_of(&fields_of_variants(variants));
        if contains_text(&keys, "variant_name") {
            return true;
        }
        let mut j: usize = 0;
        while j < self.lad.functions.len()
            invariant
                j <= self.lad.functions@.len(),
                i < self.lad.types@.len(),
                forall|k: int|
                    0 <= k < j ==> !(naming::belongs_to(
                        #[trigger] self.lad.functions@[k],
                        self.lad.types@[i as int].0@,
                    ) && callable(self.lad.functions@[k].identifier@) == Some("variant_name"@)),
            decreases self.lad.functions@.len() - j,
        {
            let func = &self.lad.functions[j];
            if converter::belongs_to(func, self.lad.types[i].0.0.as_str()) && bound_as(
                func.identifier.as_str(),
                "variant_name",
            ) {
                assert(naming::belongs_to(
                    self.lad.functions@[j as int],
                    self.lad.types@[i as int].0@,
                ));
                return true;
            }
            j += 1;
        }
        false
    }

    /// Typed variant inspection, narrowing the base class's `variant_name` — but
    /// only when the backing function is in the registry, and never
    /// shadow-fighting a real member of the same name (fields win at runtime, so
    /// they win here).
    fn variant_name_line(&self, i: usize) -> (r: String)
        requires
            self.wf(),
            i < self.lad.types@.len(),
        ensures
            r@ == variant_name_override(*self.lad, self@, i as int),
    {
        assert(self@.variant_aliases[i as int] == option_text(self.variant_aliases@[i as int]));
        match (&self.lad.types[i].1.layout, &self.variant_aliases[i]) {
            (LadTypeLayout::Enum(variants), Some(alias)) => {
                if self.has_variant_name && !self.has_own_variant_name(i, variants) {
                    let mut out = "\tfunction variant_name(self): ".to_owned();
                    out.append(alias.as_str());
                    out.append("\n");
                    out
                } else {
                    String::new()
                }
            },
            _ => String::new(),
        }
    }

    fn head_of_class(&self, i: usize, name: &str) -> (r: String)
        requires
            self.wf(),
            i < self.lad.types@.len(),
            self@.types.names[i as int] == Some(name@),
        ensures
            r@ == class_head(self@, i as int),
    {
        let extends = if self.reflect_ref.is_some() {
            let mut text = " extends ".to_owned();
            text.append(REFLECT_REFERENCE_CLASS);
            text
        } else {
            "".to_owned()
        };
        let mut out = "declare extern type ".to_owned();
        out.append(name);
        out.append(extends.as_str());
        out.append(" with\n");
        out
    }

    /// The declaration of a type.
    fn declaration(&self, i: usize, name: &str) -> (r: String)
        requires
            self.wf(),
            i < self.lad.types@.len(),
            self@.types.names[i as int] == Some(name@),
        ensures
            r@ == class_declaration(*self.lad, self@, i as int),
    {
        let mut out = String::new();
        match &self.lad.types[i].1.documentation {
            Some(doc) => push_doc(&mut out, doc.as_str(), ""),
            None => {},
        }
        assert(out@ =~= optional_doc_comment(
            option_text(self.lad.types@[i as int].1.documentation),
            ""@,
        ));
        out.append(self.head_of_class(i, name).as_str());
        out.append(self.fields_of_class(i).as_str());
        out.append(self.variant_name_line(i).as_str());
        // Associated functions: a method if its first script-visible argument is
        // the owning type, otherwise a dot-callable function field.
        let place = Place { owner: Some(name), is_base: false };
        assert(place@ == class_place(self@.types, i as int));
        let fns = self.dedupe_overloads(
            &place,
            &functions_of_type(self.lad, self.lad.types[i].0.0.as_str()),
        );
        out.append(self.members(&place, &fns).as_str());
        out.append("end\n\n");
        out
    }

    /// The declaration of a type, with the aliases exported next to it.
    pub fn class(&self, i: usize, name: &str) -> (r: String)
        requires
            self.wf(),
            i < self.lad.types@.len(),
            self@.types.names[i as int] == Some(name@),
        ensures
            r@ == class_text(*self.lad, self@, i as int),
    {
        let mut out = self.variant_union_line(i);
        // The `construct` payload alias. Every entry is optional: BMS builds
        // the value from `Default` and applies the payload over it, so a
        // partial payload is legal — the alias buys value types and variant
        // names, which is what actually goes wrong.
        out.append(self.payload_alias(i).as_str());
        out.append(self.declaration(i, name).as_str());
        out
    }

    /// The declarations of all types: every non-primitive type gets a class
    /// declaration, in name order.
    pub fn classes(&self) -> (r: String)
        requires
            self.wf(),
        ensures
            r@ == concat(class_texts(*self.lad, self@)),
    {
        let order = self.classes_by_name();
        let ghost all = class_texts(*self.lad, self@);
        let mut out = String::new();
        let mut k: usize = 0;
        assert(concat(all.take(0)) =~= Seq::<char>::empty());
        assert(all.len() == ints(order@).len());
        while k < order.len()
            invariant
                k <= order@.len(),
                self.wf(),
                ints(order@) == class_order(self@.types),
                forall|k: int|
                    0 <= k < order@.len() ==> (#[trigger] order@[k]) < self.lad.types@.len()
                        && self.names@[order@[k] as int] is Some,
                all == class_texts(*self.lad, self@),
                all.len() == order@.len(),
                out@ == concat(all.take(k as int)),
            decreases order@.len() - k,
        {
            proof {
                lemma_concat_take(all, k as int);
                assert(ints(order@)[k as int] == order@[k as int] as int);
                assert(self@.types.names[order@[k as int] as int] == option_text(
                    self.names@[order@[k as int] as int],
                ));
            }
            if let Some(name) = &self.names[order[k]] {
                out.append(self.class(order[k], name.as_str()).as_str());
            }
            k += 1;
        }
        assert(all.take(k as int) =~= all);
        out
    }
}

} // verus!
