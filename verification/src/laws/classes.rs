//! What the class of a type consists of, with the aliases exported next to it.

use vstd::prelude::*;

use crate::classes::{
    class_order, class_place, class_text, has_table_entry, law_class_order, registration_table,
    table_entries, table_entry,
};
use crate::docs::{lines, trimmed_end};
use crate::fields::{
    alternatives_under_key, enum_members, field_alternatives, field_keys, field_types, first_of_key,
    is_key, merged_type, payload_entries, quoted_variants, struct_members, types_under_key,
    variant_fields,
};
use crate::ident::{callable, field_key_text};
use crate::lad::{
    LadFieldOrVariableKind, LadFile, LadFunctionNamespace, LadNamedField, LadTypeLayout,
    LadVariant,
};
use crate::laws::kinds::lemma_brand_texts;
use crate::laws::calls::{lemma_comment, lemma_comment_starts};
use crate::members::{functions_of, member_text, member_texts};
use crate::naming::{
    self, lemma_positions_where, Naming, positions_where, REFLECT_REFERENCE_CLASS, TypeNames,
};
use crate::order::at_positions;
use crate::overloads::{overloads, PlaceView};
use crate::text::{chained, concat, distinct, joined, text_le};
use crate::types::{alternatives_of, branded, kind_text};

verus! {

/// Two ascending lists of the same positions are the same.
proof fn lemma_one_ascending_list(a: Seq<int>, b: Seq<int>)
    requires
        forall|i: int, j: int| 0 <= i < j < a.len() ==> #[trigger] a[i] < #[trigger] a[j],
        forall|i: int, j: int| 0 <= i < j < b.len() ==> #[trigger] b[i] < #[trigger] b[j],
        forall|x: int| #[trigger] a.contains(x) <==> b.contains(x),
    ensures
        a == b,
    decreases a.len(),
{
    if a.len() == 0 {
        if b.len() > 0 {
            assert(b.contains(b[0]));
            assert(a.contains(b[0]));
        }
        assert(a =~= b);
    } else {
        assert(a.contains(a[a.len() - 1]));
        assert(b.contains(a.last()));
        let k = choose|k: int| 0 <= k < b.len() && b[k] == a.last();
        assert(b.contains(b[b.len() - 1]));
        assert(a.contains(b.last()));
        let m = choose|m: int| 0 <= m < a.len() && a[m] == b.last();
        if k < b.len() - 1 {
            assert(b[k] < b[b.len() - 1]);
            if m < a.len() - 1 {
                assert(a[m] < a[a.len() - 1]);
            }
        }
        assert(a.last() == b.last());
        let x = a.drop_last();
        let y = b.drop_last();
        assert forall|i: int, j: int| 0 <= i < j < x.len() implies #[trigger] x[i]
            < #[trigger] x[j] by {
            assert(a[i] < a[j]);
        }
        assert forall|i: int, j: int| 0 <= i < j < y.len() implies #[trigger] y[i]
            < #[trigger] y[j] by {
            assert(b[i] < b[j]);
        }
        assert forall|v: int| #[trigger] x.contains(v) <==> y.contains(v) by {
            if x.contains(v) {
                let i = choose|i: int| 0 <= i < x.len() && x[i] == v;
                assert(a[i] == v && a[i] < a[a.len() - 1]);
                assert(a.contains(v));
                let j = choose|j: int| 0 <= j < b.len() && b[j] == v;
                assert(y[j] == v);
            }
            if y.contains(v) {
                let i = choose|i: int| 0 <= i < y.len() && y[i] == v;
                assert(b[i] == v && b[i] < b[b.len() - 1]);
                assert(b.contains(v));
                assert(a.contains(v));
                let j = choose|j: int| 0 <= j < a.len() && a[j] == v;
                assert(x[j] == v);
            }
        }
        lemma_one_ascending_list(x, y);
        assert(a =~= x.push(a.last()));
        assert(b =~= y.push(b.last()));
    }
}

/// The fields that get a member are those whose key is new.
proof fn lemma_first_fields(fields: Seq<LadNamedField>, firsts: Seq<int>)
    requires
        forall|a: int, b: int|
            0 <= a < b < firsts.len() ==> #[trigger] firsts[a] < #[trigger] firsts[b],
        forall|k: int| #[trigger]
            firsts.contains(k) <==> 0 <= k < fields.len() && forall|e: int|
                0 <= e < k ==> field_key_text((#[trigger] fields[e]).name@) != field_key_text(
                    fields[k].name@,
                ),
    ensures
        first_of_key(fields) == firsts,
{
    let keys = field_keys(fields);
    let p = |i: int| !field_keys(fields).take(i).contains(field_keys(fields)[i]);
    lemma_positions_where(fields.len(), p);
    let own = first_of_key(fields);
    assert forall|k: int| #[trigger] own.contains(k) <==> firsts.contains(k) by {
        assert(own.contains(k) <==> 0 <= k < fields.len() && p(k));
        if 0 <= k < fields.len() {
            if p(k) {
                assert forall|e: int| 0 <= e < k implies field_key_text(
                    (#[trigger] fields[e]).name@,
                ) != field_key_text(fields[k].name@) by {
                    assert(keys.take(k)[e] == keys[e]);
                    assert(keys.take(k).contains(keys[e]));
                }
            } else {
                let e = choose|e: int| 0 <= e < keys.take(k).len() && keys.take(k)[e] == keys[k];
                assert(field_key_text(fields[e].name@) == field_key_text(fields[k].name@));
            }
        }
    }
    lemma_one_ascending_list(own, firsts);
}

/// A plain struct has one member for each key of its fields, in their order and
/// of the type of the first field with the key, and its payload one entry for
/// each, which may be left out.
pub proof fn law_struct_fields(
    lad: LadFile,
    n: TypeNames,
    fields: Seq<LadNamedField>,
    firsts: Seq<int>,
)
    requires
        forall|a: int, b: int|
            0 <= a < b < firsts.len() ==> #[trigger] firsts[a] < #[trigger] firsts[b],
        forall|k: int| #[trigger]
            firsts.contains(k) <==> 0 <= k < fields.len() && forall|e: int|
                0 <= e < k ==> field_key_text((#[trigger] fields[e]).name@) != field_key_text(
                    fields[k].name@,
                ),
    ensures
        struct_members(lad, n, fields) == firsts.map_values(
            |k: int|
                "\t"@ + field_key_text(fields[k].name@) + ": "@ + kind_text(
                    lad,
                    n,
                    fields[k].type_,
                    false,
                ) + "\n"@,
        ),
        payload_entries(lad, n, fields) == firsts.map_values(
            |k: int|
                "\t"@ + field_key_text(fields[k].name@) + ": "@ + kind_text(
                    lad,
                    n,
                    fields[k].type_,
                    false,
                ) + "?,\n"@,
        ),
{
    lemma_first_fields(fields, firsts);
    assert forall|d: int| 0 <= d < firsts.len() implies 0 <= #[trigger] firsts[d]
        < fields.len() by {
        assert(firsts.contains(firsts[d]));
    }
    assert(struct_members(lad, n, fields) =~= firsts.map_values(
        |k: int|
            "\t"@ + field_key_text(fields[k].name@) + ": "@ + kind_text(
                lad,
                n,
                fields[k].type_,
                false,
            ) + "\n"@,
    ));
    assert(payload_entries(lad, n, fields) =~= firsts.map_values(
        |k: int|
            "\t"@ + field_key_text(fields[k].name@) + ": "@ + kind_text(
                lad,
                n,
                fields[k].type_,
                false,
            ) + "?,\n"@,
    ));
}

/// The fields of an enum are the named fields of its variants, one variant
/// after the other.
pub proof fn law_variant_fields(variants: Seq<LadVariant>, last: LadVariant)
    ensures
        variant_fields(Seq::empty()) == Seq::<LadNamedField>::empty(),
        variant_fields(variants.push(last)) == match last {
            LadVariant::Struct { name: _, fields } => variant_fields(variants) + fields@,
            _ => variant_fields(variants),
        },
{
    assert(variants.push(last).drop_last() =~= variants);
    assert(variant_fields(variants) + Seq::<LadNamedField>::empty() =~= variant_fields(variants));
}

/// What stands at the positions that satisfy a predicate is what the items that
/// satisfy it stand for.
proof fn lemma_picked<A>(
    fields: Seq<LadNamedField>,
    item: spec_fn(LadNamedField) -> bool,
    value: spec_fn(LadNamedField) -> A,
    position: spec_fn(int) -> bool,
    values: Seq<A>,
)
    requires
        values.len() >= fields.len(),
        forall|i: int| 0 <= i < fields.len() ==> #[trigger] position(i) == item(fields[i]),
        forall|i: int| 0 <= i < fields.len() ==> #[trigger] values[i] == value(fields[i]),
    ensures
        at_positions(values, positions_where(fields.len(), position)) == fields.filter(
            item,
        ).map_values(value),
    decreases fields.len(),
{
    reveal(Seq::filter);
    let picked = at_positions(values, positions_where(fields.len(), position));
    if fields.len() == 0 {
        assert(picked =~= fields.filter(item).map_values(value));
    } else {
        let front = fields.drop_last();
        assert forall|i: int| 0 <= i < front.len() implies #[trigger] position(i) == item(
            front[i],
        ) by {
            assert(front[i] == fields[i]);
        }
        assert forall|i: int| 0 <= i < front.len() implies #[trigger] values[i] == value(
            front[i],
        ) by {
            assert(front[i] == fields[i]);
        }
        lemma_picked(front, item, value, position, values);
        let last = fields.len() - 1;
        assert(position(last) == item(fields[last]));
        assert(values[last] == value(fields[last]));
        let before = positions_where(front.len(), position);
        let kept = front.filter(item);
        assert(at_positions(values, before) == kept.map_values(value));
        if item(fields[last]) {
            assert(positions_where(fields.len(), position) == before.push(last));
            assert(picked =~= at_positions(values, before).push(values[last]));
            assert(kept.push(fields[last]).map_values(value) =~= kept.map_values(value).push(
                value(fields[last]),
            ));
            assert(fields.filter(item) == kept.push(fields[last]));
        } else {
            assert(positions_where(fields.len(), position) == before);
            assert(fields.filter(item) == kept);
        }
    }
}

/// The fields of an enum become one member for each of their keys, in the order
/// in which the keys first occur. Every one of them may be absent. Fields of one
/// key have the one type that they share, or the union of all their
/// alternatives.
#[verifier::rlimit(40)]
pub proof fn law_enum_fields(lad: LadFile, n: TypeNames, fields: Seq<LadNamedField>)
    ensures
        enum_members(lad, n, fields) == distinct(
            Seq::new(fields.len(), |k: int| field_key_text(fields[k].name@)),
        ).map_values(
            |key: Seq<char>|
                {
                    let own = fields.filter(
                        |f: LadNamedField| field_key_text(f.name@) == key,
                    );
                    let types = distinct(
                        own.map_values(|f: LadNamedField| kind_text(lad, n, f.type_, false)),
                    );
                    "\t"@ + key + ": "@ + (if types.len() == 1 {
                        types[0]
                    } else {
                        "("@ + joined(
                            distinct(
                                chained(
                                    own.map_values(
                                        |f: LadNamedField|
                                            alternatives_of(lad, n, f.type_, false),
                                    ),
                                ),
                            ),
                            " | "@,
                        ) + ")"@
                    }) + "?\n"@
                },
        ),
{
    let keys = field_keys(fields);
    assert(keys =~= Seq::new(fields.len(), |k: int| field_key_text(fields[k].name@)));
    assert forall|key: Seq<char>| #[trigger] types_under_key(lad, n, fields, key) == distinct(
        fields.filter(|f: LadNamedField| field_key_text(f.name@) == key).map_values(
            |f: LadNamedField| kind_text(lad, n, f.type_, false),
        ),
    ) && alternatives_under_key(lad, n, fields, key) == distinct(
        chained(
            fields.filter(|f: LadNamedField| field_key_text(f.name@) == key).map_values(
                |f: LadNamedField| alternatives_of(lad, n, f.type_, false),
            ),
        ),
    ) by {
        lemma_picked(
            fields,
            |f: LadNamedField| field_key_text(f.name@) == key,
            |f: LadNamedField| kind_text(lad, n, f.type_, false),
            |i: int| is_key(keys, key, i),
            field_types(lad, n, fields),
        );
        lemma_picked(
            fields,
            |f: LadNamedField| field_key_text(f.name@) == key,
            |f: LadNamedField| alternatives_of(lad, n, f.type_, false),
            |i: int| is_key(keys, key, i),
            field_alternatives(lad, n, fields),
        );
    }
    let whole = distinct(keys).map_values(
        |key: Seq<char>|
            {
                let own = fields.filter(|f: LadNamedField| field_key_text(f.name@) == key);
                let types = distinct(
                    own.map_values(|f: LadNamedField| kind_text(lad, n, f.type_, false)),
                );
                "\t"@ + key + ": "@ + (if types.len() == 1 {
                    types[0]
                } else {
                    "("@ + joined(
                        distinct(
                            chained(
                                own.map_values(
                                    |f: LadNamedField| alternatives_of(lad, n, f.type_, false),
                                ),
                            ),
                        ),
                        " | "@,
                    ) + ")"@
                }) + "?\n"@
            },
    );
    assert forall|d: int| 0 <= d < whole.len() implies #[trigger] enum_members(lad, n, fields)[d]
        == whole[d] by {
        let key = distinct(keys)[d];
        assert(types_under_key(lad, n, fields, key).len() >= 0);
        assert(enum_members(lad, n, fields)[d] == "\t"@ + key + ": "@ + merged_type(
            lad,
            n,
            fields,
            key,
        ) + "?\n"@);
    }
    assert(enum_members(lad, n, fields) =~= whole);
}

/// What is declared for a type: the union of its variants' names and the alias
/// of its payload where it has them, its documentation, line by line, and its
/// class, which extends the base class where there is one and holds the members
/// that it has from its fields, the narrowed `variant_name`, and its functions.
#[verifier::rlimit(40)]
pub proof fn law_class(lad: LadFile, n: Naming, i: int, name: Seq<char>)
    requires
        0 <= i < lad.types@.len(),
        n.types.names[i] == Some(name),
    ensures
        ({
            let def = lad.types@[i].1;
            let place = PlaceView { owner: Some(name), is_base: false };
            class_text(lad, n, i) == (match (n.variant_aliases[i], def.layout) {
                (Some(alias), LadTypeLayout::Enum(variants)) => "export type "@ + alias + " = "@
                    + joined(
                    Seq::new(
                        variants@.len(),
                        |k: int|
                            "\""@ + (match variants@[k] {
                                LadVariant::TupleStruct { name: own } => own@,
                                LadVariant::Struct { name: own, fields: _ } => own@,
                                LadVariant::Unit { name: own } => own@,
                            }) + "\""@,
                    ),
                    " | "@,
                ) + "\n"@,
                _ => Seq::empty(),
            }) + (match (n.init_aliases[i], def.layout) {
                (
                    Some(alias),
                    LadTypeLayout::MonoVariant(LadVariant::Struct { name: _, fields }),
                ) => "export type "@ + alias + " = {\n"@ + concat(
                    payload_entries(lad, n.types, fields@),
                ) + "}\n"@,
                (Some(alias), LadTypeLayout::Enum(_)) => match n.variant_aliases[i] {
                    Some(variant) => "export type "@ + alias + " = { variant: "@ + variant
                        + " }\n"@,
                    None => Seq::empty(),
                },
                _ => Seq::empty(),
            }) + ((match def.documentation {
                Some(doc) => concat(
                    Seq::new(
                        lines(doc@).len(),
                        |k: int| "-- "@ + trimmed_end(lines(doc@)[k]) + "\n"@,
                    ),
                ),
                None => Seq::empty(),
            }) + ("declare extern type "@ + name + (if n.reflect_ref is Some {
                " extends ReflectReference"@
            } else {
                ""@
            }) + " with\n"@) + (match def.layout {
                LadTypeLayout::MonoVariant(LadVariant::Struct { name: _, fields }) => concat(
                    struct_members(lad, n.types, fields@),
                ),
                LadTypeLayout::Enum(variants) => concat(
                    enum_members(lad, n.types, variant_fields(variants@)),
                ),
                _ => Seq::empty(),
            }) + (match (def.layout, n.variant_aliases[i]) {
                (LadTypeLayout::Enum(variants), Some(alias)) => if n.has_variant_name && (
                forall|k: int|
                    0 <= k < variant_fields(variants@).len() ==> field_key_text(
                        (#[trigger] variant_fields(variants@)[k]).name@,
                    ) != "variant_name"@) && (forall|j: int|
                    0 <= j < lad.functions@.len() && (
                    (#[trigger] lad.functions@[j]).namespace matches LadFunctionNamespace::Type(t)
                        && t@ == lad.types@[i].0@) ==> callable(lad.functions@[j].identifier@)
                        != Some("variant_name"@)) {
                    "\tfunction variant_name(self): "@ + alias + "\n"@
                } else {
                    Seq::empty()
                },
                _ => Seq::empty(),
            }) + concat(
                overloads(lad, n.types, place, functions_of(lad, lad.types@[i].0@)).map_values(
                    |j: int| member_text(lad, n.types, place, lad.functions@[j]),
                ),
            ) + "end\n\n"@)
        }),
{
    let def = lad.types@[i].1;
    let place = PlaceView { owner: Some(name), is_base: false };
    assert(class_place(n.types, i) == place);
    lemma_extends();
    lemma_comment_starts();
    lemma_comment(def.documentation, ""@, "-- "@);
    assert(member_texts(
        lad,
        n.types,
        place,
        overloads(lad, n.types, place, functions_of(lad, lad.types@[i].0@)),
    ) =~= overloads(lad, n.types, place, functions_of(lad, lad.types@[i].0@)).map_values(
        |j: int| member_text(lad, n.types, place, lad.functions@[j]),
    ));
    if let LadTypeLayout::Enum(variants) = def.layout {
        assert(quoted_variants(variants@) =~= Seq::new(
            variants@.len(),
            |k: int|
                "\""@ + (match variants@[k] {
                    LadVariant::TupleStruct { name: own } => own@,
                    LadVariant::Struct { name: own, fields: _ } => own@,
                    LadVariant::Unit { name: own } => own@,
                }) + "\""@,
        ));
        let fields = variant_fields(variants@);
        let keys = field_keys(fields);
        if keys.contains("variant_name"@) {
            let k = choose|k: int| 0 <= k < keys.len() && keys[k] == "variant_name"@;
            assert(field_key_text(fields[k].name@) == "variant_name"@);
        } else {
            assert forall|k: int| 0 <= k < fields.len() implies field_key_text(
                (#[trigger] fields[k]).name@,
            ) != "variant_name"@ by {
                assert(keys[k] == field_key_text(fields[k].name@));
                assert(keys.contains(keys[k]));
            }
        }
    }
}

/// What a class says of the base class.
pub proof fn lemma_extends()
    ensures
        " extends "@ + REFLECT_REFERENCE_CLASS@ == " extends ReflectReference"@,
{
    reveal_strlit(" extends ");
    reveal_strlit("ReflectReference");
    reveal_strlit(" extends ReflectReference");
    assert(" extends "@ + "ReflectReference"@ =~= " extends ReflectReference"@);
}

/// Leaving out what is empty changes nothing.
proof fn lemma_concat_filtered(
    list: Seq<int>,
    kept: spec_fn(int) -> bool,
    all: spec_fn(int) -> Seq<char>,
    some: spec_fn(int) -> Seq<char>,
)
    requires
        forall|i: int| #[trigger] list.contains(i) && !kept(i) ==> all(i).len() == 0,
        forall|i: int| #[trigger] list.contains(i) && kept(i) ==> all(i) == some(i),
    ensures
        concat(list.map_values(all)) == concat(list.filter(kept).map_values(some)),
    decreases list.len(),
{
    reveal(Seq::filter);
    if list.len() == 0 {
        assert(list.map_values(all) =~= list.filter(kept).map_values(some));
    } else {
        let front = list.drop_last();
        let last = list.last();
        assert(list[list.len() - 1] == last);
        assert(list.contains(last));
        assert forall|i: int| #[trigger] front.contains(i) implies list.contains(i) by {
            let k = choose|k: int| 0 <= k < front.len() && front[k] == i;
            assert(list[k] == i);
        }
        lemma_concat_filtered(front, kept, all, some);
        assert(list.map_values(all).drop_last() =~= front.map_values(all));
        if kept(last) {
            assert(list.filter(kept) == front.filter(kept).push(last));
            assert(list.filter(kept).map_values(some).drop_last() =~= front.filter(
                kept,
            ).map_values(some));
        } else {
            assert(concat(front.map_values(all)) + all(last) =~= concat(front.map_values(all)));
        }
    }
}

/// A filtered list holds what was there and satisfies the predicate, in the
/// order in which it was there.
proof fn lemma_filtered(list: Seq<int>, kept: spec_fn(int) -> bool, names: Seq<Option<Seq<char>>>)
    requires
        list.no_duplicates(),
        forall|a: int, b: int|
            0 <= a < b < list.len() ==> text_le(
                names[#[trigger] list[a]]->0,
                names[#[trigger] list[b]]->0,
            ),
    ensures
        list.filter(kept).no_duplicates(),
        forall|i: int| #[trigger] list.filter(kept).contains(i) <==> list.contains(i) && kept(i),
        forall|a: int, b: int|
            0 <= a < b < list.filter(kept).len() ==> text_le(
                names[#[trigger] list.filter(kept)[a]]->0,
                names[#[trigger] list.filter(kept)[b]]->0,
            ),
    decreases list.len(),
{
    reveal(Seq::filter);
    if list.len() > 0 {
        let front = list.drop_last();
        let last = list.last();
        assert forall|a: int, b: int| 0 <= a < b < front.len() implies text_le(
            names[#[trigger] front[a]]->0,
            names[#[trigger] front[b]]->0,
        ) by {
            assert(text_le(names[list[a]]->0, names[list[b]]->0));
        }
        lemma_filtered(front, kept, names);
        let f = front.filter(kept);
        let all = list.filter(kept);
        assert forall|i: int| #[trigger] list.contains(i) <==> front.contains(i) || i == last by {
            if list.contains(i) {
                let k = choose|k: int| 0 <= k < list.len() && list[k] == i;
                if k < front.len() {
                    assert(front[k] == i);
                }
            }
            if front.contains(i) {
                let k = choose|k: int| 0 <= k < front.len() && front[k] == i;
                assert(list[k] == i);
            }
            if i == last {
                assert(list[list.len() - 1] == i);
            }
        }
        assert(!front.contains(last)) by {
            if front.contains(last) {
                let k = choose|k: int| 0 <= k < front.len() && front[k] == last;
                assert(list[k] == list[list.len() - 1]);
            }
        }
        if kept(last) {
            assert(all == f.push(last));
            assert forall|i: int| #[trigger] all.contains(i) <==> f.contains(i) || i == last by {
                if all.contains(i) {
                    let k = choose|k: int| 0 <= k < all.len() && all[k] == i;
                    if k < f.len() {
                        assert(f[k] == i);
                    }
                }
                if f.contains(i) {
                    let k = choose|k: int| 0 <= k < f.len() && f[k] == i;
                    assert(all[k] == i);
                }
                if i == last {
                    assert(all[f.len() as int] == i);
                }
            }
            assert forall|a: int, b: int| 0 <= a < b < all.len() implies all[a] != all[b] by {
                if b == f.len() {
                    assert(f.contains(f[a]));
                }
            }
            assert forall|a: int, b: int| 0 <= a < b < all.len() implies text_le(
                names[#[trigger] all[a]]->0,
                names[#[trigger] all[b]]->0,
            ) by {
                if b == f.len() {
                    assert(f.contains(f[a]));
                    let k = choose|k: int| 0 <= k < front.len() && front[k] == f[a];
                    assert(text_le(names[list[k]]->0, names[list[list.len() - 1]]->0));
                } else {
                    assert(text_le(names[f[a]]->0, names[f[b]]->0));
                }
            }
        } else {
            assert(all == f);
        }
    }
}

/// A map from strings to registrations, and no other kind, becomes a closed
/// table. It has a line for exactly the types with a class whose identifier is
/// the name of the class, that are no instances of a generic type, and whose
/// brand has a registration type; the line gives the brand of the type's
/// registration: that of a component, of a resource, or of another type. The
/// lines come in order of the names, and an indexer for everything else comes
/// last.
#[verifier::rlimit(40)]
pub proof fn law_types_table(
    lad: LadFile,
    n: TypeNames,
    kind: LadFieldOrVariableKind,
) -> (listed: Seq<int>)
    requires
        n.names.len() == lad.types@.len(),
    ensures
        listed.no_duplicates(),
        forall|i: int| #[trigger]
            listed.contains(i) <==> {
                let def = lad.types@[i].1;
                &&& 0 <= i < lad.types@.len()
                &&& def.generics@.len() == 0
                &&& n.names[i] == Some(def.identifier@)
                &&& def.metadata.is_component ==> n.regs[0] is Some
                &&& !def.metadata.is_component && def.metadata.is_resource ==> n.regs[1] is Some
                &&& !def.metadata.is_component && !def.metadata.is_resource ==> n.regs[2] is Some
            },
        forall|a: int, b: int|
            0 <= a < b < listed.len() ==> text_le(
                lad.types@[#[trigger] listed[a]].1.identifier@,
                lad.types@[#[trigger] listed[b]].1.identifier@,
            ),
        registration_table(lad, n, kind) == match kind {
            LadFieldOrVariableKind::HashMap(key, value) => if kind_text(lad, n, *key, false)
                == "string"@ && branded(lad, n, *value) is Some {
                Some(
                    "{\n"@ + concat(
                        listed.map_values(
                            |i: int|
                                "\t"@ + lad.types@[i].1.identifier@ + ": "@ + (
                                if lad.types@[i].1.metadata.is_component {
                                    "Reg"@
                                } else if lad.types@[i].1.metadata.is_resource {
                                    "ResReg"@
                                } else {
                                    "TypeReg"@
                                }) + "<"@ + lad.types@[i].1.identifier@ + ">,\n"@,
                        ),
                    ) + "\t[string]: "@ + kind_text(lad, n, *value, false) + ",\n}"@,
                )
            } else {
                None
            },
            _ => None,
        },
{
    lemma_brand_texts();
    let order = class_order(n);
    law_class_order(n);
    let kept = |i: int| has_table_entry(lad, n, i);
    let all = |i: int| table_entry(lad, n, i);
    let some = |i: int|
        "\t"@ + lad.types@[i].1.identifier@ + ": "@ + (if lad.types@[i].1.metadata.is_component {
            "Reg"@
        } else if lad.types@[i].1.metadata.is_resource {
            "ResReg"@
        } else {
            "TypeReg"@
        }) + "<"@ + lad.types@[i].1.identifier@ + ">,\n"@;
    lemma_concat_filtered(order, kept, all, some);
    lemma_filtered(order, kept, n.names);
    let listed = order.filter(kept);
    assert(table_entries(lad, n) == order.map_values(all));
    assert forall|a: int, b: int| 0 <= a < b < listed.len() implies text_le(
        lad.types@[#[trigger] listed[a]].1.identifier@,
        lad.types@[#[trigger] listed[b]].1.identifier@,
    ) by {
        assert(listed.contains(listed[a]) && listed.contains(listed[b]));
        assert(kept(listed[a]) && kept(listed[b]));
    }
    assert forall|i: int| #[trigger] listed.contains(i) <==> {
        let def = lad.types@[i].1;
        &&& 0 <= i < lad.types@.len()
        &&& def.generics@.len() == 0
        &&& n.names[i] == Some(def.identifier@)
        &&& def.metadata.is_component ==> n.regs[0] is Some
        &&& !def.metadata.is_component && def.metadata.is_resource ==> n.regs[1] is Some
        &&& !def.metadata.is_component && !def.metadata.is_resource ==> n.regs[2] is Some
    } by {
        assert(listed.contains(i) <==> order.contains(i) && kept(i));
    }
    listed
}

} // verus!
