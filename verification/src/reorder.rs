//! The order in which a file lists things does not matter: two files that hold
//! the same things are rendered alike.

use vstd::prelude::*;

use crate::alike::{
    lemma_brands_alike, lemma_fields_alike, lemma_function_alike, lemma_global_function_alike,
    lemma_kind_alike, written_alike,
};
use crate::classes::{
    brand_index, class_head, class_order, class_place, class_text, class_texts, is_named,
    law_class_order, layout_members, named_types, payload_text, shadows_variant_name,
    table_entries, variant_name_override, variant_union_text,
};
use crate::fields::variant_fields;
use crate::ident::{callable, sanitized};
use crate::lad::{
    LadFieldOrVariableKind, LadFile, LadFunction, LadFunctionNamespace, LadInstance,
    LadTypeLayout, LadVariant,
};
use crate::laws::{law_names_are_distinct, lemma_find_first, lemma_least_path};
use crate::members::{
    functions_of, global_function_texts, global_functions, global_place, is_global,
    lemma_functions_of, member_texts,
};
use crate::naming::{
    self, backs_variant_name, BRANDS, by_type, class_names, declared, declared_types, goes_by,
    goes_by_in_bms, identifiers, init_alias_names, is_reference_type, least_path,
    lemma_naming_order, lemma_positions_where, Naming, naming_order, positions_where,
    records_variant_name, reference_type, registration_type, variant_alias_names, TypeNames,
    wanted_classes, wanted_init_aliases, wanted_variant_aliases,
};
use crate::options::Options;
use crate::order::{
    at_positions, key_le, law_sorted_positions, lemma_key_le_antisymmetric, lemma_sorted_contains,
    plain_keys, precedes, sorted_positions, SortKey,
};
use crate::overloads::{
    collapsed, documentation_score, has_copy, law_identity_tells_generic,
    law_one_member_per_signature, lemma_collapsed, lemma_collapsed_best, overload_key,
    overload_sort_keys, overloads, PlaceView,
};
use crate::render::{
    base_place, base_text, brand_line, brands_text, global_lines, globals_order, instance_name,
    instance_type, is_shown, luau_text, shown_globals,
};
use crate::text::{
    lemma_take_push, lemma_text_le_antisymmetric, lemma_text_le_reflexive, lemma_text_le_total,
    lemma_text_le_transitive, text_le,
};
use crate::types::{is_registration, type_text, type_with_id};

verus! {

/// Whether `p` names every position below `n` once.
pub open spec fn is_permutation(p: Seq<int>, n: nat) -> bool {
    &&& p.len() == n
    &&& p.no_duplicates()
    &&& forall|k: int| 0 <= k < n ==> 0 <= #[trigger] p[k] < n
}

/// Whether `b` holds the items of `a`, the one at each position being the one
/// that `p` says.
pub open spec fn is_rearrangement<A>(a: Seq<A>, b: Seq<A>, p: Seq<int>) -> bool {
    &&& a.len() == b.len()
    &&& is_permutation(p, a.len())
    &&& forall|k: int| 0 <= k < b.len() ==> #[trigger] b[k] == a[p[k]]
}

/// Whether `b` holds the items of `a` in some order.
pub open spec fn rearranged<A>(a: Seq<A>, b: Seq<A>) -> bool {
    exists|p: Seq<int>| is_rearrangement(a, b, p)
}

/// The positions that the given ones have elsewhere.
pub open spec fn moved(list: Seq<int>, p: Seq<int>) -> Seq<int> {
    list.map_values(|k: int| p[k])
}

/// The position that a position has elsewhere, if there is one.
pub open spec fn moved_option(position: Option<int>, p: Seq<int>) -> Option<int> {
    match position {
        Some(k) => Some(p[k]),
        None => None,
    }
}

/// A permutation reaches every position.
proof fn lemma_reaches(p: Seq<int>, n: nat, i: int)
    requires
        is_permutation(p, n),
        0 <= i < n,
    ensures
        p.contains(i),
{
    let range = vstd::set_lib::set_int_range(0, n as int);
    vstd::set_lib::lemma_int_range(0, n as int);
    p.unique_seq_to_set();
    assert(p.to_set().subset_of(range)) by {
        assert forall|x: int| p.to_set().contains(x) implies range.contains(x) by {
            let k = choose|k: int| 0 <= k < p.len() && p[k] == x;
        }
    }
    vstd::set_lib::lemma_subset_equality(p.to_set(), range);
    assert(range.contains(i));
    assert(p.to_set().contains(i));
}

/// Whether `list` and `other` hold the same positions, each once, those of
/// `other` moved by `p`.
pub open spec fn same_moved(list: Seq<int>, other: Seq<int>, p: Seq<int>) -> bool {
    &&& list.no_duplicates()
    &&& other.no_duplicates()
    &&& forall|k: int| #[trigger] other.contains(k) ==> 0 <= k < p.len() && list.contains(p[k])
    &&& forall|i: int| #[trigger]
        list.contains(i) ==> exists|k: int| #[trigger] other.contains(k) && 0 <= k < p.len()
            && p[k] == i
}

/// The positions that satisfy a predicate move with it.
proof fn lemma_positions_moved(
    n: nat,
    in_a: spec_fn(int) -> bool,
    in_b: spec_fn(int) -> bool,
    p: Seq<int>,
)
    requires
        is_permutation(p, n),
        forall|k: int| 0 <= k < n ==> #[trigger] in_b(k) == in_a(p[k]),
    ensures
        same_moved(positions_where(n, in_a), positions_where(n, in_b), p),
{
    lemma_positions_where(n, in_a);
    lemma_positions_where(n, in_b);
    let list = positions_where(n, in_a);
    let other = positions_where(n, in_b);
    assert forall|k: int| #[trigger] other.contains(k) implies 0 <= k < p.len() && list.contains(
        p[k],
    ) by {
        assert(in_b(k));
    }
    assert forall|i: int| #[trigger] list.contains(i) implies exists|k: int| #[trigger]
        other.contains(k) && 0 <= k < p.len() && p[k] == i by {
        lemma_reaches(p, n, i);
        let k = choose|k: int| 0 <= k < p.len() && p[k] == i;
        assert(in_b(k));
        assert(other.contains(k));
    }
}

/// There is only one way to list the same positions in ascending order of
/// distinct keys.
proof fn lemma_one_ascending_order(x: Seq<int>, y: Seq<int>, key: spec_fn(int) -> SortKey, k: nat)
    requires
        x.len() == y.len(),
        k <= x.len(),
        x.no_duplicates(),
        y.no_duplicates(),
        forall|i: int| #[trigger] x.contains(i) <==> y.contains(i),
        forall|i: int, j: int|
            0 <= i < j < x.len() ==> key_le(key(#[trigger] x[i]), key(#[trigger] x[j])),
        forall|i: int, j: int|
            0 <= i < j < y.len() ==> key_le(key(#[trigger] y[i]), key(#[trigger] y[j])),
        forall|i: int, j: int| #[trigger]
            x.contains(i) && #[trigger] x.contains(j) && key(i) == key(j) ==> i == j,
    ensures
        x.take(k as int) == y.take(k as int),
    decreases k,
{
    if k == 0 {
        assert(x.take(0) =~= y.take(0));
    } else {
        let i = k - 1;
        lemma_one_ascending_order(x, y, key, (k - 1) as nat);
        assert forall|j: int| 0 <= j < i implies x[j] == y[j] by {
            assert(x.take(i)[j] == y.take(i)[j]);
        }
        if x[i] != y[i] {
            assert(x.contains(x[i]));
            assert(y.contains(y[i]));
            assert(y.contains(x[i]));
            assert(x.contains(y[i]));
            let p = choose|p: int| 0 <= p < y.len() && y[p] == x[i];
            let q = choose|q: int| 0 <= q < x.len() && x[q] == y[i];
            assert(p > i);
            assert(q > i);
            assert(key_le(key(y[i]), key(y[p])));
            assert(key_le(key(x[i]), key(x[q])));
            lemma_key_le_antisymmetric(key(x[i]), key(y[i]));
        }
        lemma_take_push(x, i);
        lemma_take_push(y, i);
    }
}

/// Positions sorted by distinct keys come in the same order, wherever they are
/// listed.
proof fn lemma_sorted_moved(
    list: Seq<int>,
    keys: Seq<SortKey>,
    other: Seq<int>,
    other_keys: Seq<SortKey>,
    key: spec_fn(int) -> SortKey,
    p: Seq<int>,
)
    requires
        p.no_duplicates(),
        same_moved(list, other, p),
        keys.len() == list.len(),
        other_keys.len() == other.len(),
        forall|j: int| 0 <= j < list.len() ==> #[trigger] keys[j] == key(list[j]),
        forall|j: int| 0 <= j < other.len() ==> #[trigger] other_keys[j] == key(p[other[j]]),
        forall|i: int, j: int| #[trigger]
            list.contains(i) && #[trigger] list.contains(j) && key(i) == key(j) ==> i == j,
    ensures
        at_positions(list, sorted_positions(keys)) == moved(
            at_positions(other, sorted_positions(other_keys)),
            p,
        ),
{
    let s = sorted_positions(keys);
    let t = sorted_positions(other_keys);
    let x = at_positions(list, s);
    let sorted = at_positions(other, t);
    let y = moved(sorted, p);
    law_sorted_positions(keys);
    law_sorted_positions(other_keys);
    lemma_sorted_contains(list, keys);
    lemma_sorted_contains(other, other_keys);
    assert forall|i: int, j: int| 0 <= i < j < y.len() implies y[i] != y[j] by {
        assert(sorted[i] != sorted[j]);
        assert(sorted.contains(sorted[i]) && sorted.contains(sorted[j]));
    }
    assert forall|i: int| #[trigger] x.contains(i) <==> y.contains(i) by {
        if x.contains(i) {
            assert(list.contains(i));
            let k = choose|k: int| #[trigger] other.contains(k) && 0 <= k < p.len() && p[k] == i;
            assert(sorted.contains(k));
            let m = choose|m: int| 0 <= m < sorted.len() && sorted[m] == k;
            assert(y[m] == i);
        }
        if y.contains(i) {
            let m = choose|m: int| 0 <= m < y.len() && y[m] == i;
            assert(sorted.contains(sorted[m]));
            assert(other.contains(sorted[m]));
        }
    }
    assert forall|i: int, j: int| 0 <= i < j < x.len() implies key_le(
        key(#[trigger] x[i]),
        key(#[trigger] x[j]),
    ) by {
        assert(s.contains(s[i]) && s.contains(s[j]));
        assert(precedes(keys, s[i], s[j]));
        lemma_text_le_reflexive(keys[s[i]].1);
        assert(keys[s[i]] == key(x[i]) && keys[s[j]] == key(x[j]));
    }
    assert forall|i: int, j: int| 0 <= i < j < y.len() implies key_le(
        key(#[trigger] y[i]),
        key(#[trigger] y[j]),
    ) by {
        assert(t.contains(t[i]) && t.contains(t[j]));
        assert(precedes(other_keys, t[i], t[j]));
        lemma_text_le_reflexive(other_keys[t[i]].1);
        assert(other_keys[t[i]] == key(y[i]) && other_keys[t[j]] == key(y[j]));
    }
    x.unique_seq_to_set();
    y.unique_seq_to_set();
    assert(x.to_set() =~= y.to_set()) by {
        assert forall|i: int| x.to_set().contains(i) <==> y.to_set().contains(i) by {
            assert(x.contains(i) <==> y.contains(i));
        }
    }
    lemma_one_ascending_order(x, y, key, x.len());
    assert(x.take(x.len() as int) =~= x);
    assert(y.take(y.len() as int) =~= y);
}

/// Whether no two types that get a class share an identifier, and no two that
/// are recorded as the reference proxy share a path.
pub open spec fn types_differ(lad: LadFile) -> bool {
    &&& forall|i: int, j: int|
        0 <= i < j < lad.types@.len() && #[trigger] declared(lad, i) && #[trigger] declared(lad, j)
            ==> lad.types@[i].1.identifier@ != lad.types@[j].1.identifier@
    &&& forall|i: int, j: int|
        0 <= i < j < lad.types@.len() && #[trigger] is_reference_type(lad, i)
            && #[trigger] is_reference_type(lad, j) ==> lad.types@[i].1.path@
            != lad.types@[j].1.path@
}

/// Whether `b` lists the types of `a` in the order that `p` says.
pub open spec fn same_types(a: LadFile, b: LadFile, p: Seq<int>) -> bool {
    &&& is_rearrangement(a.types@, b.types@, p)
    &&& a.wf()
    &&& types_differ(a)
}

/// The type with the least path has a path that is not greater than any other.
pub proof fn lemma_least_path_is_least(lad: LadFile, types: Seq<int>)
    ensures
        least_path(lad, types) matches Some(i) ==> forall|j: int| #[trigger]
            types.contains(j) ==> text_le(lad.types@[i].1.path@, lad.types@[j].1.path@),
    decreases types.len(),
{
    if types.len() > 0 {
        let front = types.drop_last();
        let last = types.last();
        lemma_least_path_is_least(lad, front);
        lemma_least_path(lad, front);
        let i = least_path(lad, types)->0;
        lemma_text_le_reflexive(lad.types@[last].1.path@);
        assert forall|j: int| #[trigger] types.contains(j) implies text_le(
            lad.types@[i].1.path@,
            lad.types@[j].1.path@,
        ) by {
            let k = choose|k: int| 0 <= k < types.len() && types[k] == j;
            if k < front.len() {
                assert(front[k] == j);
                assert(front.contains(j));
                let f = least_path(lad, front)->0;
                lemma_text_le_total(lad.types@[f].1.path@, lad.types@[last].1.path@);
                if i != f {
                    lemma_text_le_transitive(
                        lad.types@[last].1.path@,
                        lad.types@[f].1.path@,
                        lad.types@[j].1.path@,
                    );
                }
            }
        }
    }
}

/// The type with the least path is the same, wherever it is listed.
proof fn lemma_least_path_moved(
    a: LadFile,
    b: LadFile,
    p: Seq<int>,
    list: Seq<int>,
    other: Seq<int>,
)
    requires
        same_types(a, b, p),
        same_moved(list, other, p),
        forall|i: int| #[trigger] list.contains(i) ==> 0 <= i < a.types@.len(),
        forall|i: int, j: int| #[trigger]
            list.contains(i) && #[trigger] list.contains(j) && a.types@[i].1.path@
                == a.types@[j].1.path@ ==> i == j,
    ensures
        least_path(a, list) == moved_option(least_path(b, other), p),
{
    lemma_least_path(a, list);
    lemma_least_path(b, other);
    lemma_least_path_is_least(a, list);
    lemma_least_path_is_least(b, other);
    if least_path(a, list) is Some {
        let i = least_path(a, list)->0;
        assert(list.contains(i));
        let k = choose|k: int| #[trigger] other.contains(k) && 0 <= k < p.len() && p[k] == i;
        assert(other.contains(k));
        assert(least_path(b, other) is Some);
        let m = least_path(b, other)->0;
        assert(other.contains(m));
        assert(list.contains(p[m]));
        assert(b.types@[m] == a.types@[p[m]]);
        assert(b.types@[k] == a.types@[p[k]]);
        lemma_text_le_antisymmetric(a.types@[i].1.path@, a.types@[p[m]].1.path@);
    } else {
        if least_path(b, other) is Some {
            assert(list.contains(p[least_path(b, other)->0]));
        }
    }
}

/// The reference proxy type is the same, wherever it is listed.
proof fn lemma_reference_type_moved(a: LadFile, b: LadFile, p: Seq<int>)
    requires
        same_types(a, b, p),
    ensures
        reference_type(a) == moved_option(reference_type(b), p),
{
    let n = a.types@.len();
    let in_a = |i: int| is_reference_type(a, i);
    let in_b = |i: int| is_reference_type(b, i);
    assert forall|k: int| 0 <= k < n implies #[trigger] in_b(k) == in_a(p[k]) by {
        assert(b.types@[k] == a.types@[p[k]]);
    }
    lemma_positions_moved(n, in_a, in_b, p);
    lemma_positions_where(n, in_a);
    let list = positions_where(n, in_a);
    assert forall|i: int, j: int| #[trigger]
        list.contains(i) && #[trigger] list.contains(j) && a.types@[i].1.path@
            == a.types@[j].1.path@ implies i == j by {
        assert(in_a(i) && in_a(j));
        assert(is_reference_type(a, i) && is_reference_type(a, j));
    }
    lemma_least_path_moved(a, b, p, list, positions_where(n, in_b));
}

/// The registration type of an identifier is the same, wherever it is listed.
proof fn lemma_registration_type_moved(a: LadFile, b: LadFile, p: Seq<int>, identifier: Seq<char>)
    requires
        same_types(a, b, p),
    ensures
        registration_type(a, identifier) == moved_option(registration_type(b, identifier), p),
{
    let n = a.types@.len();
    let in_a = |i: int| goes_by_in_bms(a, identifier, i);
    let in_b = |i: int| goes_by_in_bms(b, identifier, i);
    assert forall|k: int| 0 <= k < n implies #[trigger] in_b(k) == in_a(p[k]) by {
        assert(b.types@[k] == a.types@[p[k]]);
    }
    lemma_positions_moved(n, in_a, in_b, p);
    lemma_positions_where(n, in_a);
    let list = positions_where(n, in_a);
    assert forall|i: int, j: int| #[trigger]
        list.contains(i) && #[trigger] list.contains(j) implies i == j by {
        assert(in_a(i) && in_a(j));
        assert(declared(a, i) && declared(a, j));
    }
    lemma_least_path_moved(a, b, p, list, positions_where(n, in_b));
    let any_a = |i: int| goes_by(a, identifier, i);
    let any_b = |i: int| goes_by(b, identifier, i);
    assert forall|k: int| 0 <= k < n implies #[trigger] any_b(k) == any_a(p[k]) by {
        assert(b.types@[k] == a.types@[p[k]]);
    }
    lemma_positions_moved(n, any_a, any_b, p);
    lemma_positions_where(n, any_a);
    let all = positions_where(n, any_a);
    assert forall|i: int, j: int| #[trigger]
        all.contains(i) && #[trigger] all.contains(j) implies i == j by {
        assert(any_a(i) && any_a(j));
        assert(declared(a, i) && declared(a, j));
    }
    lemma_least_path_moved(a, b, p, all, positions_where(n, any_b));
}

/// Types are named in the same order, wherever they are listed.
proof fn lemma_naming_order_moved(a: LadFile, b: LadFile, p: Seq<int>)
    requires
        same_types(a, b, p),
    ensures
        naming_order(a) == moved(naming_order(b), p),
{
    let n = a.types@.len();
    let in_a = |i: int| declared(a, i);
    let in_b = |i: int| declared(b, i);
    assert forall|k: int| 0 <= k < n implies #[trigger] in_b(k) == in_a(p[k]) by {
        assert(b.types@[k] == a.types@[p[k]]);
    }
    lemma_positions_moved(n, in_a, in_b, p);
    lemma_positions_where(n, in_a);
    lemma_positions_where(n, in_b);
    let list = declared_types(a);
    let other = declared_types(b);
    let key = |i: int| (a.types@[i].1.identifier@, Seq::<char>::empty());
    let keys = plain_keys(identifiers(a, list));
    let other_keys = plain_keys(identifiers(b, other));
    assert forall|j: int| 0 <= j < other.len() implies #[trigger] other_keys[j] == key(
        p[other[j]],
    ) by {
        assert(other.contains(other[j]));
        assert(b.types@[other[j]] == a.types@[p[other[j]]]);
    }
    assert forall|i: int, j: int| #[trigger]
        list.contains(i) && #[trigger] list.contains(j) && key(i) == key(j) implies i == j by {
        assert(in_a(i) && in_a(j));
        assert(declared(a, i) && declared(a, j));
    }
    lemma_sorted_moved(list, keys, other, other_keys, key, p);
}

/// What is handed out in naming order goes to the same types, wherever they are
/// listed.
proof fn lemma_by_type_moved(
    a: LadFile,
    b: LadFile,
    p: Seq<int>,
    names: Seq<Option<Seq<char>>>,
    k: int,
)
    requires
        same_types(a, b, p),
        0 <= k < b.types@.len(),
    ensures
        by_type(b.types@.len(), naming_order(b), names)[k] == by_type(
            a.types@.len(),
            naming_order(a),
            names,
        )[p[k]],
{
    lemma_naming_order_moved(a, b, p);
    lemma_naming_order(a);
    lemma_naming_order(b);
    let x = naming_order(a);
    let y = naming_order(b);
    assert(b.types@[k] == a.types@[p[k]]);
    if y.contains(k) {
        let j = y.index_of(k);
        assert(y[j] == k);
        assert(x[j] == p[k]);
        assert(x.contains(p[k]));
        let i = x.index_of(p[k]);
        assert(x[i] == x[j]);
        assert(i == j);
    }
}

/// The same names are handed out, wherever the types are listed.
proof fn lemma_names_handed_out(a: LadFile, b: LadFile, p: Seq<int>, init_types: bool)
    requires
        same_types(a, b, p),
    ensures
        class_names(a) == class_names(b),
        variant_alias_names(a) == variant_alias_names(b),
        init_alias_names(a, init_types) == init_alias_names(b, init_types),
{
    lemma_naming_order_moved(a, b, p);
    lemma_reference_type_moved(a, b, p);
    lemma_naming_order(b);
    let x = naming_order(a);
    let y = naming_order(b);
    assert forall|j: int| 0 <= j < y.len() implies a.types@[#[trigger] x[j]]
        == b.types@[y[j]] by {
        assert(y.contains(y[j]));
        assert(b.types@[y[j]] == a.types@[p[y[j]]]);
    }
    assert(wanted_classes(a, x) =~= wanted_classes(b, y));
    assert(class_names(a) == class_names(b));
    let classes = class_names(a);
    assert(wanted_variant_aliases(a, x, classes) =~= wanted_variant_aliases(b, y, classes));
    assert(wanted_init_aliases(a, x, classes, init_types) =~= wanted_init_aliases(
        b,
        y,
        classes,
        init_types,
    ));
}

/// Whether the function behind `variant_name` is recorded does not depend on
/// where it is listed.
proof fn lemma_variant_name_moved(a: LadFile, b: LadFile, p: Seq<int>, q: Seq<int>)
    requires
        same_types(a, b, p),
        is_rearrangement(a.functions@, b.functions@, q),
    ensures
        records_variant_name(a) == records_variant_name(b),
{
    lemma_reference_type_moved(a, b, p);
    if reference_type(b) is Some {
        let k = reference_type(b)->0;
        lemma_least_path(b, positions_where(b.types@.len(), |i: int| is_reference_type(b, i)));
        lemma_positions_where(b.types@.len(), |i: int| is_reference_type(b, i));
        assert(b.types@[k] == a.types@[p[k]]);
        let id = b.types@[k].0@;
        if records_variant_name(b) {
            let j = choose|j: int|
                0 <= j < b.functions@.len() && backs_variant_name(#[trigger] b.functions@[j], id);
            assert(backs_variant_name(a.functions@[q[j]], id));
        }
        if records_variant_name(a) {
            let i = choose|i: int|
                0 <= i < a.functions@.len() && backs_variant_name(#[trigger] a.functions@[i], id);
            lemma_reaches(q, a.functions@.len(), i);
            let j = choose|j: int| 0 <= j < q.len() && q[j] == i;
            assert(backs_variant_name(b.functions@[j], id));
        }
    }
}

/// Whether what is decided about two files is the same, up to where the types
/// are listed.
pub open spec fn same_naming(x: Naming, y: Naming, p: Seq<int>) -> bool {
    &&& x.types.names.len() == p.len()
    &&& y.types.names.len() == p.len()
    &&& forall|k: int|
        0 <= k < p.len() ==> #[trigger] y.types.names[k] == x.types.names[p[k]]
            && y.variant_aliases[k] == x.variant_aliases[p[k]] && y.init_aliases[k]
            == x.init_aliases[p[k]]
    &&& forall|b: int|
        0 <= b < 3 ==> #[trigger] x.types.regs[b] == moved_option(y.types.regs[b], p)
    &&& x.reflect_ref == moved_option(y.reflect_ref, p)
    &&& x.has_variant_name == y.has_variant_name
}

/// The same is decided, wherever types and functions are listed.
proof fn lemma_naming_moved(
    a: LadFile,
    b: LadFile,
    p: Seq<int>,
    q: Seq<int>,
    options: Options,
)
    requires
        same_types(a, b, p),
        is_rearrangement(a.functions@, b.functions@, q),
    ensures
        same_naming(naming::naming(a, options), naming::naming(b, options), p),
{
    let x = naming::naming(a, options);
    let y = naming::naming(b, options);
    lemma_names_handed_out(a, b, p, options.init_types);
    lemma_reference_type_moved(a, b, p);
    lemma_variant_name_moved(a, b, p, q);
    assert forall|k: int| 0 <= k < p.len() implies #[trigger] y.types.names[k]
        == x.types.names[p[k]] && y.variant_aliases[k] == x.variant_aliases[p[k]]
        && y.init_aliases[k] == x.init_aliases[p[k]] by {
        lemma_by_type_moved(a, b, p, class_names(b), k);
        lemma_by_type_moved(a, b, p, variant_alias_names(b), k);
        lemma_by_type_moved(a, b, p, init_alias_names(b, options.init_types), k);
    }
    assert forall|r: int| 0 <= r < 3 implies #[trigger] x.types.regs[r] == moved_option(
        y.types.regs[r],
        p,
    ) by {
        lemma_registration_type_moved(a, b, p, BRANDS@[r].0@);
    }
}

/// Looking up an id finds the same type, wherever it is listed.
proof fn lemma_type_with_id_moved(a: LadFile, b: LadFile, p: Seq<int>, id: Seq<char>)
    requires
        same_types(a, b, p),
    ensures
        type_with_id(a, id) == moved_option(type_with_id(b, id), p),
        type_with_id(b, id) matches Some(k) ==> 0 <= k < p.len(),
{
    lemma_find_first(a, id, a.types@.len());
    lemma_find_first(b, id, b.types@.len());
    if type_with_id(b, id) is Some {
        let k = type_with_id(b, id)->0;
        assert(b.types@[k] == a.types@[p[k]]);
        assert(a.types@[p[k]].0@ == id);
        let i = type_with_id(a, id)->0;
        if i < p[k] {
            assert(a.types@[i].0@ != a.types@[p[k]].0@);
        }
        if p[k] < i {
            assert(a.types@[p[k]].0@ != a.types@[i].0@);
        }
    } else if type_with_id(a, id) is Some {
        let i = type_with_id(a, id)->0;
        lemma_reaches(p, a.types@.len(), i);
        let k = choose|k: int| 0 <= k < p.len() && p[k] == i;
        assert(b.types@[k] == a.types@[p[k]]);
    }
}

/// Type ids are written alike, wherever types and functions are listed.
proof fn lemma_written_alike(a: LadFile, b: LadFile, p: Seq<int>, q: Seq<int>, options: Options)
    requires
        same_types(a, b, p),
        is_rearrangement(a.functions@, b.functions@, q),
    ensures
        written_alike(
            a,
            naming::naming(a, options).types,
            b,
            naming::naming(b, options).types,
        ),
{
    let x = naming::naming(a, options).types;
    let y = naming::naming(b, options).types;
    lemma_naming_moved(a, b, p, q, options);
    assert forall|id: Seq<char>| #[trigger] type_text(b, y, id) == type_text(a, x, id) by {
        lemma_type_with_id_moved(a, b, p, id);
        if type_with_id(b, id) is Some {
            let k = type_with_id(b, id)->0;
            assert(b.types@[k] == a.types@[p[k]]);
            assert(y.names[k] == x.names[p[k]]);
        }
    }
    assert forall|r: int, id: Seq<char>| 0 <= r < 3 implies #[trigger] is_registration(
        b,
        y,
        r,
        id,
    ) == is_registration(a, x, r, id) by {
        assert(x.regs[r] == moved_option(y.regs[r], p));
        lemma_registration_in_range(b, BRANDS@[r].0@);
        if y.regs[r] is Some {
            let k = y.regs[r]->0;
            assert(b.types@[k] == a.types@[p[k]]);
        }
    }
}

/// The registration type of an identifier is one of the file's types.
proof fn lemma_registration_in_range(lad: LadFile, identifier: Seq<char>)
    ensures
        registration_type(lad, identifier) matches Some(i) ==> 0 <= i < lad.types@.len(),
{
    let n = lad.types@.len();
    let in_bms = |i: int| goes_by_in_bms(lad, identifier, i);
    let any = |i: int| goes_by(lad, identifier, i);
    lemma_positions_where(n, in_bms);
    lemma_positions_where(n, any);
    lemma_least_path(lad, positions_where(n, in_bms));
    lemma_least_path(lad, positions_where(n, any));
}

/// Whether any two copies among the functions of a place differ in how much
/// they tell the reader, so that it is not their order that decides which one
/// is kept; and on the base class, where overloads of one name keep the file's
/// order, whether functions of one name are copies.
pub open spec fn order_is_free(
    lad: LadFile,
    n: TypeNames,
    place: PlaceView,
    fns: Seq<int>,
) -> bool {
    &&& forall|f: int, g: int|
        #![trigger fns.contains(f), fns.contains(g)]
        fns.contains(f) && fns.contains(g) && f != g && overload_key(lad, n, place, f)
            == overload_key(lad, n, place, g) ==> documentation_score(lad.functions@[f])
            != documentation_score(lad.functions@[g])
    &&& place.is_base ==> forall|f: int, g: int|
        #![trigger fns.contains(f), fns.contains(g)]
        fns.contains(f) && fns.contains(g) && lad.functions@[f].identifier@
            == lad.functions@[g].identifier@ ==> overload_key(lad, n, place, f) == overload_key(
            lad,
            n,
            place,
            g,
        )
}

/// Whether `list` is in ascending order.
spec fn ascends(list: Seq<int>) -> bool {
    forall|i: int, j: int| 0 <= i < j < list.len() ==> #[trigger] list[i] < #[trigger] list[j]
}

/// The same copies are kept, wherever functions are listed.
proof fn lemma_collapsed_moved(
    a: LadFile,
    x: TypeNames,
    b: LadFile,
    y: TypeNames,
    place: PlaceView,
    fns: Seq<int>,
    other: Seq<int>,
    q: Seq<int>,
)
    requires
        written_alike(a, x, b, y),
        is_rearrangement(a.functions@, b.functions@, q),
        same_moved(fns, other, q),
        ascends(fns),
        ascends(other),
        order_is_free(a, x, place, fns),
    ensures
        same_moved(collapsed(a, x, place, fns), collapsed(b, y, place, other), q),
{
    let kept = collapsed(a, x, place, fns);
    let rest = collapsed(b, y, place, other);
    lemma_collapsed(a, x, place, fns);
    lemma_collapsed(b, y, place, other);
    lemma_collapsed_best(a, x, place, fns);
    lemma_collapsed_best(b, y, place, other);
    assert forall|k: int| 0 <= k < q.len() implies #[trigger] overload_key(b, y, place, k)
        == overload_key(a, x, place, q[k]) by {
        assert(b.functions@[k] == a.functions@[q[k]]);
        lemma_function_alike(a, x, b, y, place, b.functions@[k]);
    }
    assert forall|k: int| #[trigger] rest.contains(k) implies 0 <= k < q.len() && kept.contains(
        q[k],
    ) by {
        assert(other.contains(k));
        assert(fns.contains(q[k]));
        assert(has_copy(a, x, place, kept, q[k]));
        let t = choose|t: int|
            0 <= t < kept.len() && overload_key(a, x, place, #[trigger] kept[t]) == overload_key(
                a,
                x,
                place,
                q[k],
            );
        let g = kept[t];
        assert(kept.contains(g));
        assert(fns.contains(g));
        let m = choose|m: int| #[trigger] other.contains(m) && 0 <= m < q.len() && q[m] == g;
        assert(other.contains(m));
        assert(overload_key(b, y, place, m) == overload_key(a, x, place, q[m]));
        assert(overload_key(b, y, place, k) == overload_key(a, x, place, q[k]));
        assert(b.functions@[k] == a.functions@[q[k]]);
        assert(b.functions@[m] == a.functions@[q[m]]);
        assert(rest.contains(k) && other.contains(m));
        assert(kept.contains(g) && fns.contains(q[k]));
        assert(documentation_score(a.functions@[g]) == documentation_score(a.functions@[q[k]]));
        assert(g == q[k]);
    }
    assert forall|i: int| #[trigger] kept.contains(i) implies exists|k: int| #[trigger]
        rest.contains(k) && 0 <= k < q.len() && q[k] == i by {
        assert(fns.contains(i));
        let m = choose|m: int| #[trigger] other.contains(m) && 0 <= m < q.len() && q[m] == i;
        assert(other.contains(m));
        assert(has_copy(b, y, place, rest, m));
        let t = choose|t: int|
            0 <= t < rest.len() && overload_key(b, y, place, #[trigger] rest[t]) == overload_key(
                b,
                y,
                place,
                m,
            );
        let k = rest[t];
        assert(rest.contains(k));
        assert(kept.contains(q[k]));
        assert(overload_key(b, y, place, m) == overload_key(a, x, place, q[m]));
        assert(overload_key(b, y, place, k) == overload_key(a, x, place, q[k]));
        let c = choose|c: int| 0 <= c < kept.len() && kept[c] == i;
        let d = choose|d: int| 0 <= d < kept.len() && kept[d] == q[k];
        if c < d {
            assert(overload_key(a, x, place, kept[c]) != overload_key(a, x, place, kept[d]));
        }
        if d < c {
            assert(overload_key(a, x, place, kept[d]) != overload_key(a, x, place, kept[c]));
        }
    }
    assert(kept.no_duplicates()) by {
        assert forall|i: int, j: int| 0 <= i < j < kept.len() implies kept[i] != kept[j] by {
            assert(overload_key(a, x, place, kept[i]) != overload_key(a, x, place, kept[j]));
        }
    }
    assert(rest.no_duplicates()) by {
        assert forall|i: int, j: int| 0 <= i < j < rest.len() implies rest[i] != rest[j] by {
            assert(overload_key(b, y, place, rest[i]) != overload_key(b, y, place, rest[j]));
        }
    }
}

/// The same overloads are rendered in the same order, wherever functions are
/// listed.
proof fn lemma_overloads_moved(
    a: LadFile,
    x: TypeNames,
    b: LadFile,
    y: TypeNames,
    place: PlaceView,
    fns: Seq<int>,
    other: Seq<int>,
    q: Seq<int>,
)
    requires
        written_alike(a, x, b, y),
        is_rearrangement(a.functions@, b.functions@, q),
        same_moved(fns, other, q),
        ascends(fns),
        ascends(other),
        order_is_free(a, x, place, fns),
    ensures
        overloads(a, x, place, fns) == moved(overloads(b, y, place, other), q),
        forall|k: int| #[trigger]
            overloads(b, y, place, other).contains(k) ==> 0 <= k < q.len(),
{
    let kept = collapsed(a, x, place, fns);
    let rest = collapsed(b, y, place, other);
    lemma_collapsed_moved(a, x, b, y, place, fns, other, q);
    lemma_collapsed(a, x, place, fns);
    law_one_member_per_signature(b, y, place, other);
    let key = |j: int|
        (
            a.functions@[j].identifier@,
            if place.is_base {
                Seq::<char>::empty()
            } else {
                overload_key(a, x, place, j)
            },
        );
    let keys = overload_sort_keys(a, x, place, kept);
    let other_keys = overload_sort_keys(b, y, place, rest);
    assert forall|j: int| 0 <= j < rest.len() implies #[trigger] other_keys[j] == key(
        q[rest[j]],
    ) by {
        let k = rest[j];
        assert(rest.contains(k));
        assert(b.functions@[k] == a.functions@[q[k]]);
        lemma_function_alike(a, x, b, y, place, b.functions@[k]);
    }
    assert forall|i: int, j: int| #[trigger]
        kept.contains(i) && #[trigger] kept.contains(j) && key(i) == key(j) implies i == j by {
        assert(fns.contains(i) && fns.contains(j));
        let c = choose|c: int| 0 <= c < kept.len() && kept[c] == i;
        let d = choose|d: int| 0 <= d < kept.len() && kept[d] == j;
        if c < d {
            assert(overload_key(a, x, place, kept[c]) != overload_key(a, x, place, kept[d]));
        }
        if d < c {
            assert(overload_key(a, x, place, kept[d]) != overload_key(a, x, place, kept[c]));
        }
    }
    lemma_sorted_moved(kept, keys, rest, other_keys, key, q);
}

/// The functions of a type are the same, wherever they are listed.
proof fn lemma_functions_moved(a: LadFile, b: LadFile, q: Seq<int>, id: Seq<char>)
    requires
        is_rearrangement(a.functions@, b.functions@, q),
    ensures
        same_moved(functions_of(a, id), functions_of(b, id), q),
        ascends(functions_of(a, id)),
        ascends(functions_of(b, id)),
{
    let n = a.functions@.len();
    let in_a = |j: int| naming::belongs_to(a.functions@[j], id);
    let in_b = |j: int| naming::belongs_to(b.functions@[j], id);
    assert forall|k: int| 0 <= k < n implies #[trigger] in_b(k) == in_a(q[k]) by {
        assert(b.functions@[k] == a.functions@[q[k]]);
    }
    lemma_positions_moved(n, in_a, in_b, q);
    lemma_functions_of(a, id);
    lemma_functions_of(b, id);
}

/// The functions of a class are rendered alike, wherever they are listed.
proof fn lemma_member_texts_moved(
    a: LadFile,
    x: TypeNames,
    b: LadFile,
    y: TypeNames,
    place: PlaceView,
    id: Seq<char>,
    q: Seq<int>,
)
    requires
        written_alike(a, x, b, y),
        is_rearrangement(a.functions@, b.functions@, q),
        order_is_free(a, x, place, functions_of(a, id)),
    ensures
        member_texts(a, x, place, overloads(a, x, place, functions_of(a, id))) == member_texts(
            b,
            y,
            place,
            overloads(b, y, place, functions_of(b, id)),
        ),
{
    lemma_functions_moved(a, b, q, id);
    lemma_overloads_moved(a, x, b, y, place, functions_of(a, id), functions_of(b, id), q);
    let list = overloads(a, x, place, functions_of(a, id));
    let other = overloads(b, y, place, functions_of(b, id));
    assert forall|t: int| 0 <= t < other.len() implies #[trigger] member_texts(
        a,
        x,
        place,
        list,
    )[t] == member_texts(b, y, place, other)[t] by {
        let k = other[t];
        assert(other.contains(k));
        assert(list[t] == q[k]);
        assert(b.functions@[k] == a.functions@[q[k]]);
        lemma_function_alike(a, x, b, y, place, b.functions@[k]);
    }
    assert(member_texts(a, x, place, list) =~= member_texts(b, y, place, other));
}

/// The global functions are rendered alike, wherever they are listed.
proof fn lemma_global_functions_moved(
    a: LadFile,
    x: TypeNames,
    b: LadFile,
    y: TypeNames,
    q: Seq<int>,
)
    requires
        written_alike(a, x, b, y),
        is_rearrangement(a.functions@, b.functions@, q),
        order_is_free(a, x, global_place(), global_functions(a)),
    ensures
        global_function_texts(a, x) == global_function_texts(b, y),
{
    let n = a.functions@.len();
    let place = global_place();
    let in_a = |j: int| is_global(a.functions@[j]);
    let in_b = |j: int| is_global(b.functions@[j]);
    assert forall|k: int| 0 <= k < n implies #[trigger] in_b(k) == in_a(q[k]) by {
        assert(b.functions@[k] == a.functions@[q[k]]);
    }
    lemma_positions_moved(n, in_a, in_b, q);
    lemma_positions_where(n, in_a);
    lemma_positions_where(n, in_b);
    lemma_overloads_moved(a, x, b, y, place, global_functions(a), global_functions(b), q);
    let list = overloads(a, x, place, global_functions(a));
    let other = overloads(b, y, place, global_functions(b));
    assert forall|t: int| 0 <= t < other.len() implies #[trigger] global_function_texts(a, x)[t]
        == global_function_texts(b, y)[t] by {
        let k = other[t];
        assert(other.contains(k));
        assert(list[t] == q[k]);
        assert(b.functions@[k] == a.functions@[q[k]]);
        lemma_global_function_alike(a, x, b, y, b.functions@[k]);
    }
    assert(global_function_texts(a, x) =~= global_function_texts(b, y));
}

/// Whether an enum has a member by the name of `variant_name` does not depend
/// on where it is listed.
proof fn lemma_shadows_moved(
    a: LadFile,
    b: LadFile,
    p: Seq<int>,
    q: Seq<int>,
    k: int,
    variants: Seq<LadVariant>,
)
    requires
        same_types(a, b, p),
        is_rearrangement(a.functions@, b.functions@, q),
        0 <= k < p.len(),
    ensures
        shadows_variant_name(b, k, variants) == shadows_variant_name(a, p[k], variants),
{
    assert(b.types@[k] == a.types@[p[k]]);
    let id = b.types@[k].0@;
    if exists|j: int|
        0 <= j < b.functions@.len() && naming::belongs_to(#[trigger] b.functions@[j], id)
            && callable(b.functions@[j].identifier@) == Some("variant_name"@) {
        let j = choose|j: int|
            0 <= j < b.functions@.len() && naming::belongs_to(#[trigger] b.functions@[j], id)
                && callable(b.functions@[j].identifier@) == Some("variant_name"@);
        assert(naming::belongs_to(a.functions@[q[j]], id));
    }
    if exists|i: int|
        0 <= i < a.functions@.len() && naming::belongs_to(#[trigger] a.functions@[i], id)
            && callable(a.functions@[i].identifier@) == Some("variant_name"@) {
        let i = choose|i: int|
            0 <= i < a.functions@.len() && naming::belongs_to(#[trigger] a.functions@[i], id)
                && callable(a.functions@[i].identifier@) == Some("variant_name"@);
        lemma_reaches(q, a.functions@.len(), i);
        let j = choose|j: int| 0 <= j < q.len() && q[j] == i;
        assert(naming::belongs_to(b.functions@[j], id));
    }
}

/// A type is declared alike, wherever it is listed.
proof fn lemma_class_moved(
    a: LadFile,
    x: Naming,
    b: LadFile,
    y: Naming,
    p: Seq<int>,
    q: Seq<int>,
    k: int,
)
    requires
        same_types(a, b, p),
        is_rearrangement(a.functions@, b.functions@, q),
        same_naming(x, y, p),
        written_alike(a, x.types, b, y.types),
        0 <= k < p.len(),
        order_is_free(
            a,
            x.types,
            class_place(x.types, p[k]),
            functions_of(a, a.types@[p[k]].0@),
        ),
    ensures
        class_text(b, y, k) == class_text(a, x, p[k]),
{
    let i = p[k];
    assert(b.types@[k] == a.types@[i]);
    assert(y.types.names[k] == x.types.names[i]);
    let def = a.types@[i].1;
    lemma_member_texts_moved(
        a,
        x.types,
        b,
        y.types,
        class_place(x.types, i),
        a.types@[i].0@,
        q,
    );
    match def.layout {
        LadTypeLayout::MonoVariant(LadVariant::Struct { name: _, fields }) => {
            lemma_fields_alike(a, x.types, b, y.types, fields@);
        },
        LadTypeLayout::Enum(variants) => {
            lemma_fields_alike(a, x.types, b, y.types, variant_fields(variants@));
            lemma_shadows_moved(a, b, p, q, k, variants@);
        },
        _ => {},
    }
    assert(layout_members(b, y, k) == layout_members(a, x, i));
    assert(variant_name_override(b, y, k) == variant_name_override(a, x, i));
    assert(variant_union_text(b, y, k) == variant_union_text(a, x, i));
    assert(payload_text(b, y, k) == payload_text(a, x, i));
    assert(class_head(y, k) == class_head(x, i));
}

/// Classes are declared in the same order, wherever types and functions are
/// listed.
proof fn lemma_class_order_moved(
    a: LadFile,
    b: LadFile,
    p: Seq<int>,
    q: Seq<int>,
    options: Options,
)
    requires
        same_types(a, b, p),
        is_rearrangement(a.functions@, b.functions@, q),
    ensures
        class_order(naming::naming(a, options).types) == moved(
            class_order(naming::naming(b, options).types),
            p,
        ),
{
    let x = naming::naming(a, options).types;
    let y = naming::naming(b, options).types;
    let n = a.types@.len();
    lemma_naming_moved(a, b, p, q, options);
    let in_a = |i: int| is_named(x, i);
    let in_b = |i: int| is_named(y, i);
    assert forall|k: int| 0 <= k < n implies #[trigger] in_b(k) == in_a(p[k]) by {
        assert(y.names[k] == x.names[p[k]]);
    }
    lemma_positions_moved(n, in_a, in_b, p);
    lemma_positions_where(n, in_a);
    lemma_positions_where(n, in_b);
    let list = named_types(x);
    let other = named_types(y);
    let key = |i: int| (x.names[i]->0, Seq::<char>::empty());
    let keys = plain_keys(list.map_values(|i: int| x.names[i]->0));
    let other_keys = plain_keys(other.map_values(|i: int| y.names[i]->0));
    assert forall|j: int| 0 <= j < other.len() implies #[trigger] other_keys[j] == key(
        p[other[j]],
    ) by {
        assert(other.contains(other[j]));
        assert(y.names[other[j]] == x.names[p[other[j]]]);
    }
    assert forall|i: int, j: int| #[trigger]
        list.contains(i) && #[trigger] list.contains(j) && key(i) == key(j) implies i == j by {
        assert(in_a(i) && in_a(j));
        law_names_are_distinct(a, options, i, j);
    }
    lemma_sorted_moved(list, keys, other, other_keys, key, p);
}

/// The `types` table is the same, wherever types and functions are listed.
proof fn lemma_table_moved(
    a: LadFile,
    b: LadFile,
    p: Seq<int>,
    q: Seq<int>,
    options: Options,
)
    requires
        same_types(a, b, p),
        is_rearrangement(a.functions@, b.functions@, q),
    ensures
        table_entries(a, naming::naming(a, options).types) == table_entries(
            b,
            naming::naming(b, options).types,
        ),
{
    let x = naming::naming(a, options).types;
    let y = naming::naming(b, options).types;
    lemma_naming_moved(a, b, p, q, options);
    lemma_class_order_moved(a, b, p, q, options);
    law_class_order(y);
    let other = class_order(y);
    assert forall|t: int| 0 <= t < other.len() implies #[trigger] table_entries(a, x)[t]
        == table_entries(b, y)[t] by {
        let k = other[t];
        assert(other.contains(k));
        assert(class_order(x)[t] == p[k]);
        assert(b.types@[k] == a.types@[p[k]]);
        assert(y.names[k] == x.names[p[k]]);
        let r = brand_index(b.types@[k].1);
        assert(x.regs[r] == moved_option(y.regs[r], p));
    }
    assert(table_entries(a, x) =~= table_entries(b, y));
}

/// An instance is declared with the same type, wherever types and functions
/// are listed.
proof fn lemma_instance_moved(
    a: LadFile,
    b: LadFile,
    p: Seq<int>,
    q: Seq<int>,
    options: Options,
    instance: LadInstance,
)
    requires
        same_types(a, b, p),
        is_rearrangement(a.functions@, b.functions@, q),
    ensures
        instance_type(a, naming::naming(a, options).types, instance) == instance_type(
            b,
            naming::naming(b, options).types,
            instance,
        ),
{
    let x = naming::naming(a, options).types;
    let y = naming::naming(b, options).types;
    lemma_written_alike(a, b, p, q, options);
    lemma_table_moved(a, b, p, q, options);
    lemma_kind_alike(a, x, b, y, instance.type_kind, false);
    if let LadFieldOrVariableKind::HashMap(key, value) = instance.type_kind {
        lemma_kind_alike(a, x, b, y, *key, false);
        lemma_kind_alike(a, x, b, y, *value, false);
        lemma_brands_alike(a, x, b, y, *value);
    }
}

/// Whether no two global instances are declared under one name.
pub open spec fn globals_differ(lad: LadFile, n: TypeNames) -> bool {
    forall|i: int, j: int|
        0 <= i < j < lad.globals@.len() && #[trigger] is_shown(lad, n, i) && #[trigger] is_shown(
            lad,
            n,
            j,
        ) ==> instance_name(lad, i) != instance_name(lad, j)
}

/// The global instances are declared alike, wherever they are listed.
proof fn lemma_globals_moved(
    a: LadFile,
    b: LadFile,
    p: Seq<int>,
    q: Seq<int>,
    g: Seq<int>,
    options: Options,
)
    requires
        same_types(a, b, p),
        is_rearrangement(a.functions@, b.functions@, q),
        is_rearrangement(a.globals@, b.globals@, g),
        globals_differ(a, naming::naming(a, options).types),
    ensures
        global_lines(a, naming::naming(a, options).types) == global_lines(
            b,
            naming::naming(b, options).types,
        ),
{
    let x = naming::naming(a, options).types;
    let y = naming::naming(b, options).types;
    let n = a.globals@.len();
    let in_a = |k: int| is_shown(a, x, k);
    let in_b = |k: int| is_shown(b, y, k);
    assert forall|k: int| 0 <= k < n implies #[trigger] in_b(k) == in_a(g[k]) by {
        assert(b.globals@[k] == a.globals@[g[k]]);
        lemma_instance_moved(a, b, p, q, options, b.globals@[k].1);
    }
    lemma_positions_moved(n, in_a, in_b, g);
    lemma_positions_where(n, in_a);
    lemma_positions_where(n, in_b);
    let list = shown_globals(a, x);
    let other = shown_globals(b, y);
    let key = |k: int| (instance_name(a, k), Seq::<char>::empty());
    let keys = plain_keys(list.map_values(|k: int| instance_name(a, k)));
    let other_keys = plain_keys(other.map_values(|k: int| instance_name(b, k)));
    assert forall|j: int| 0 <= j < other.len() implies #[trigger] other_keys[j] == key(
        g[other[j]],
    ) by {
        assert(other.contains(other[j]));
        assert(b.globals@[other[j]] == a.globals@[g[other[j]]]);
    }
    assert forall|i: int, j: int| #[trigger]
        list.contains(i) && #[trigger] list.contains(j) && key(i) == key(j) implies i == j by {
        assert(in_a(i) && in_a(j));
        assert(is_shown(a, x, i) && is_shown(a, x, j));
    }
    lemma_sorted_moved(list, keys, other, other_keys, key, g);
    lemma_sorted_contains(other, other_keys);
    let order = globals_order(b, y);
    assert forall|t: int| 0 <= t < order.len() implies #[trigger] global_lines(a, x)[t]
        == global_lines(b, y)[t] by {
        let k = order[t];
        assert(order.contains(k));
        assert(other.contains(k));
        assert(globals_order(a, x)[t] == g[k]);
        assert(b.globals@[k] == a.globals@[g[k]]);
        lemma_instance_moved(a, b, p, q, options, b.globals@[k].1);
    }
    assert(global_lines(a, x) =~= global_lines(b, y));
}

/// The brands are declared alike, wherever types and functions are listed.
proof fn lemma_brands_text_moved(
    a: LadFile,
    b: LadFile,
    p: Seq<int>,
    q: Seq<int>,
    options: Options,
)
    requires
        same_types(a, b, p),
        is_rearrangement(a.functions@, b.functions@, q),
    ensures
        brands_text(a, naming::naming(a, options).types) == brands_text(
            b,
            naming::naming(b, options).types,
        ),
{
    let x = naming::naming(a, options).types;
    let y = naming::naming(b, options).types;
    lemma_naming_moved(a, b, p, q, options);
    lemma_written_alike(a, b, p, q, options);
    assert forall|r: int| 0 <= r < 3 implies #[trigger] brand_line(a, x, r) == brand_line(b, y, r)
        && (x.regs[r] is Some) == (y.regs[r] is Some) by {
        assert(x.regs[r] == moved_option(y.regs[r], p));
        lemma_registration_in_range(b, BRANDS@[r].0@);
        if y.regs[r] is Some {
            let k = y.regs[r]->0;
            assert(b.types@[k] == a.types@[p[k]]);
            assert(type_text(b, y, b.types@[k].0@) == type_text(a, x, b.types@[k].0@));
        }
    }
    assert(brand_line(a, x, 0) == brand_line(b, y, 0));
    assert(brand_line(a, x, 1) == brand_line(b, y, 1));
    assert(brand_line(a, x, 2) == brand_line(b, y, 2));
}

/// Whether it is never the order of a file's functions that decides which of
/// them are rendered, or where.
pub open spec fn functions_differ(lad: LadFile, n: Naming) -> bool {
    &&& order_is_free(lad, n.types, global_place(), global_functions(lad))
    &&& forall|i: int|
        0 <= i < lad.types@.len() && n.types.names[i] is Some ==> order_is_free(
            lad,
            n.types,
            class_place(n.types, i),
            functions_of(lad, (#[trigger] lad.types@[i]).0@),
        )
    &&& n.reflect_ref matches Some(r) ==> order_is_free(
        lad,
        n.types,
        base_place(),
        functions_of(lad, lad.types@[r].0@),
    )
}

/// The sections of two files that hold the same things are the same.
proof fn lemma_file_moved(
    a: LadFile,
    b: LadFile,
    p: Seq<int>,
    q: Seq<int>,
    g: Seq<int>,
    options: Options,
)
    requires
        same_types(a, b, p),
        is_rearrangement(a.functions@, b.functions@, q),
        is_rearrangement(a.globals@, b.globals@, g),
        globals_differ(a, naming::naming(a, options).types),
        functions_differ(a, naming::naming(a, options)),
    ensures
        luau_text(a, options) == luau_text(b, options),
{
    let x = naming::naming(a, options);
    let y = naming::naming(b, options);
    lemma_naming_moved(a, b, p, q, options);
    lemma_written_alike(a, b, p, q, options);
    lemma_brands_text_moved(a, b, p, q, options);
    lemma_globals_moved(a, b, p, q, g, options);
    lemma_global_functions_moved(a, x.types, b, y.types, q);
    lemma_class_order_moved(a, b, p, q, options);
    law_class_order(y.types);
    law_class_order(x.types);
    let other = class_order(y.types);
    assert forall|t: int| 0 <= t < other.len() implies #[trigger] class_texts(a, x)[t]
        == class_texts(b, y)[t] by {
        let k = other[t];
        assert(other.contains(k));
        assert(class_order(x.types)[t] == p[k]);
        assert(y.types.names[k] == x.types.names[p[k]]);
        assert(a.types@[p[k]] == b.types@[k]);
        lemma_class_moved(a, x, b, y, p, q, k);
    }
    assert(class_texts(a, x) =~= class_texts(b, y));
    lemma_reference_in_range(b);
    if y.reflect_ref is Some {
        let k = y.reflect_ref->0;
        assert(b.types@[k] == a.types@[p[k]]);
        lemma_member_texts_moved(
            a,
            x.types,
            b,
            y.types,
            base_place(),
            b.types@[k].0@,
            q,
        );
    }
    assert(base_text(a, x) == base_text(b, y));
}

/// The reference proxy type is one of the file's types.
proof fn lemma_reference_in_range(lad: LadFile)
    ensures
        reference_type(lad) matches Some(i) ==> 0 <= i < lad.types@.len(),
{
    let n = lad.types@.len();
    let is_reference = |i: int| is_reference_type(lad, i);
    lemma_positions_where(n, is_reference);
    lemma_least_path(lad, positions_where(n, is_reference));
}

/// Two files that list the same types, functions and global instances, in
/// whatever order, are rendered alike: as long as no two classes share an
/// identifier, no two reference proxies share a path, no two instances are
/// declared under one name, no two copies of a function tell the reader equally
/// much, and no two functions of the base class share a name without being
/// copies. Among those that do, the order decides.
pub proof fn law_order_is_irrelevant(a: LadFile, b: LadFile, options: Options)
    requires
        a.wf(),
        rearranged(a.types@, b.types@),
        rearranged(a.functions@, b.functions@),
        rearranged(a.globals@, b.globals@),
        types_differ(a),
        functions_differ(a, naming::naming(a, options)),
        globals_differ(a, naming::naming(a, options).types),
    ensures
        luau_text(a, options) == luau_text(b, options),
{
    let p = choose|p: Seq<int>| is_rearrangement(a.types@, b.types@, p);
    let q = choose|q: Seq<int>| is_rearrangement(a.functions@, b.functions@, q);
    let g = choose|g: Seq<int>| is_rearrangement(a.globals@, b.globals@, g);
    lemma_file_moved(a, b, p, q, g, options);
}

/// Whether two functions belong to the same thing.
pub open spec fn same_namespace(f: LadFunction, g: LadFunction) -> bool {
    match (f.namespace, g.namespace) {
        (LadFunctionNamespace::Type(s), LadFunctionNamespace::Type(t)) => s@ == t@,
        (LadFunctionNamespace::Global, LadFunctionNamespace::Global) => true,
        _ => false,
    }
}

/// Whether no two functions of one namespace go by one name.
pub open spec fn function_names_differ(lad: LadFile) -> bool {
    forall|i: int, j: int|
        0 <= i < j < lad.functions@.len() && same_namespace(
            #[trigger] lad.functions@[i],
            #[trigger] lad.functions@[j],
        ) ==> sanitized(lad.functions@[i].identifier@) != sanitized(lad.functions@[j].identifier@)
}

/// Whether no two global instances go by one name.
pub open spec fn global_names_differ(lad: LadFile) -> bool {
    forall|i: int, j: int|
        0 <= i < j < lad.globals@.len() ==> sanitized((#[trigger] lad.globals@[i]).0@)
            != sanitized((#[trigger] lad.globals@[j]).0@)
}

/// The order of a file is irrelevant in particular if names tell everything in
/// it apart.
pub proof fn law_order_is_irrelevant_under_distinct_names(
    a: LadFile,
    b: LadFile,
    options: Options,
)
    requires
        a.wf(),
        rearranged(a.types@, b.types@),
        rearranged(a.functions@, b.functions@),
        rearranged(a.globals@, b.globals@),
        types_differ(a),
        function_names_differ(a),
        global_names_differ(a),
    ensures
        luau_text(a, options) == luau_text(b, options),
{
    let n = naming::naming(a, options);
    lemma_positions_where(a.functions@.len(), |j: int| is_global(a.functions@[j]));
    lemma_names_tell_apart(a, n.types, global_place(), global_functions(a));
    assert forall|i: int| 0 <= i < a.types@.len() implies order_is_free(
        a,
        n.types,
        class_place(n.types, i),
        functions_of(a, (#[trigger] a.types@[i]).0@),
    ) by {
        lemma_functions_of(a, a.types@[i].0@);
        lemma_names_tell_apart(
            a,
            n.types,
            class_place(n.types, i),
            functions_of(a, a.types@[i].0@),
        );
    }
    if n.reflect_ref is Some {
        let id = a.types@[n.reflect_ref->0].0@;
        lemma_functions_of(a, id);
        lemma_names_tell_apart(a, n.types, base_place(), functions_of(a, id));
    }
    assert forall|i: int, j: int|
        0 <= i < j < a.globals@.len() && #[trigger] is_shown(a, n.types, i)
            && #[trigger] is_shown(a, n.types, j) implies instance_name(a, i) != instance_name(
        a,
        j,
    ) by {
        assert(sanitized(a.globals@[i].0@) != sanitized(a.globals@[j].0@));
    }
    law_order_is_irrelevant(a, b, options);
}

/// Functions that names tell apart are no copies of each other.
proof fn lemma_names_tell_apart(lad: LadFile, n: TypeNames, place: PlaceView, fns: Seq<int>)
    requires
        function_names_differ(lad),
        forall|f: int| #[trigger] fns.contains(f) ==> 0 <= f < lad.functions@.len(),
        forall|f: int, g: int|
            #![trigger fns.contains(f), fns.contains(g)]
            fns.contains(f) && fns.contains(g) ==> same_namespace(
                lad.functions@[f],
                lad.functions@[g],
            ),
    ensures
        order_is_free(lad, n, place, fns),
{
    assert forall|f: int, g: int|
        #![trigger fns.contains(f), fns.contains(g)]
        fns.contains(f) && fns.contains(g) && f != g implies overload_key(lad, n, place, f)
        != overload_key(lad, n, place, g) && lad.functions@[f].identifier@
        != lad.functions@[g].identifier@ by {
        if f < g {
            assert(same_namespace(lad.functions@[f], lad.functions@[g]));
        } else {
            assert(same_namespace(lad.functions@[g], lad.functions@[f]));
        }
        if overload_key(lad, n, place, f) == overload_key(lad, n, place, g) {
            law_identity_tells_generic(lad, n, place, lad.functions@[f], lad.functions@[g]);
        }
    }
}

} // verus!
