//! Which names a file declares: the name of each class and alias, and the
//! types that play a part of their own.

use vstd::prelude::*;

use crate::kinds::{holds_string, reference_primitive};
use crate::lad::{LadFieldOrVariableKind, LadFile, LadFunctionNamespace, LadTypeLayout, LadVariant};
use crate::laws::kinds::lemma_brand_texts;
use crate::laws::{law_aliases, law_class_names, lemma_by_type, lemma_least_path};
use crate::ident::sanitized;
use crate::naming::{
    self, allocated, backs_variant_name, BRANDS, by_type, class_names, declared, declared_types,
    fresh, goes_by, goes_by_in_bms, identifiers, is_least_suffix, is_reference_type, least_path,
    lemma_allocated_present, lemma_least_suffix_exists_from, lemma_naming_order,
    lemma_positions_where, naming_order, positions_where, present, records_variant_name,
    reference_type, registration_type, suffixed, taken_after_classes, taken_after_variants,
    taken_from_the_start, variant_alias_names, wanted_classes, wanted_init_aliases,
    wanted_variant_aliases,
};
use crate::options::Options;
use crate::order::{law_sorted_positions, plain_keys, precedes, sorted_positions};
use crate::reorder::lemma_least_path_is_least;
use crate::text::{lemma_text_le_reflexive, text_le};

verus! {

/// What is there is what some position holds.
proof fn lemma_present_contains(names: Seq<Option<Seq<char>>>, name: Seq<char>)
    ensures
        present(names).contains(name) <==> exists|k: int|
            0 <= k < names.len() && #[trigger] names[k] == Some(name),
    decreases names.len(),
{
    if names.len() > 0 {
        let front = names.drop_last();
        lemma_present_contains(front, name);
        let all = present(names);
        let before = present(front);
        if all.contains(name) {
            let k = choose|k: int| 0 <= k < all.len() && all[k] == name;
            if k < before.len() {
                assert(before[k] == name);
                let j = choose|j: int| 0 <= j < front.len() && #[trigger] front[j] == Some(name);
                assert(names[j] == Some(name));
            } else {
                assert(names[names.len() - 1] == Some(name));
            }
        }
        if exists|k: int| 0 <= k < names.len() && #[trigger] names[k] == Some(name) {
            let k = choose|k: int| 0 <= k < names.len() && #[trigger] names[k] == Some(name);
            if k < front.len() {
                assert(front[k] == Some(name));
                let j = choose|j: int| 0 <= j < before.len() && before[j] == name;
                assert(all[j] == name);
            } else {
                assert(all[before.len() as int] == name);
            }
        }
    }
}

/// What is handed out first does not depend on what is asked for later.
proof fn lemma_allocated_take(wanted: Seq<Option<Seq<char>>>, used: Seq<Seq<char>>, k: int)
    requires
        0 <= k <= wanted.len(),
    ensures
        allocated(wanted, used).len() == wanted.len(),
        allocated(wanted.take(k), used) == allocated(wanted, used).take(k),
    decreases wanted.len(),
{
    lemma_allocated_present(wanted, used);
    if k == wanted.len() {
        assert(wanted.take(k) =~= wanted);
        assert(allocated(wanted, used).take(k) =~= allocated(wanted, used));
    } else {
        let front = wanted.drop_last();
        lemma_allocated_take(front, used, k);
        assert(front.take(k) =~= wanted.take(k));
        assert(allocated(wanted, used).take(k) =~= allocated(front, used).take(k));
    }
}

/// What one position is handed.
proof fn lemma_allocated_at(wanted: Seq<Option<Seq<char>>>, used: Seq<Seq<char>>, k: int)
    requires
        0 <= k < wanted.len(),
        wanted[k] is Some,
    ensures
        allocated(wanted, used)[k] == Some(
            fresh(wanted[k]->0, used + present(allocated(wanted, used).take(k))),
        ),
{
    lemma_allocated_take(wanted, used, k);
    lemma_allocated_take(wanted, used, k + 1);
    let short = wanted.take(k + 1);
    assert(short.drop_last() =~= wanted.take(k));
    assert(allocated(wanted, used)[k] == allocated(wanted, used).take(k + 1)[k]);
}

/// Types are named in order of their identifiers, those of one identifier in
/// the file's order.
proof fn lemma_naming_order_ascends(lad: LadFile, a: int, b: int)
    requires
        0 <= a < b < naming_order(lad).len(),
    ensures
        ({
            let i = naming_order(lad)[a];
            let j = naming_order(lad)[b];
            if lad.types@[i].1.identifier@ == lad.types@[j].1.identifier@ {
                i < j
            } else {
                text_le(lad.types@[i].1.identifier@, lad.types@[j].1.identifier@)
            }
        }),
{
    let list = declared_types(lad);
    let keys = plain_keys(identifiers(lad, list));
    let positions = sorted_positions(keys);
    lemma_positions_where(lad.types@.len(), |i: int| declared(lad, i));
    law_sorted_positions(keys);
    assert(positions.contains(positions[a]));
    assert(positions.contains(positions[b]));
    assert(precedes(keys, positions[a], positions[b]));
    let i = naming_order(lad)[a];
    let j = naming_order(lad)[b];
    assert(i == list[positions[a]] && j == list[positions[b]]);
    assert(keys[positions[a]].0 == lad.types@[i].1.identifier@);
    assert(keys[positions[b]].0 == lad.types@[j].1.identifier@);
}

/// What a type is handed: what it asks for with the fewest underscores behind
/// it that make it differ from what is used and from what was handed out
/// before.
proof fn lemma_handed_out(
    lad: LadFile,
    wanted: Seq<Option<Seq<char>>>,
    used: Seq<Seq<char>>,
    i: int,
    want: Seq<char>,
)
    requires
        wanted.len() == naming_order(lad).len(),
        0 <= i < lad.types@.len(),
        declared(lad, i),
        wanted[naming_order(lad).index_of(i)] == Some(want),
    ensures
        ({
            let given = by_type(lad.types@.len(), naming_order(lad), allocated(wanted, used));
            exists|m: nat|
                {
                    &&& given[i] == Some(#[trigger] suffixed(want, m))
                    &&& !used.contains(suffixed(want, m))
                    &&& forall|j: nat|
                        j < m ==> used.contains(#[trigger] suffixed(want, j)) || exists|k: int|
                            0 <= k < lad.types@.len() && declared(lad, k) && #[trigger] given[k]
                                == Some(suffixed(want, j)) && (if lad.types@[k].1.identifier@
                                == lad.types@[i].1.identifier@ {
                                k < i
                            } else {
                                text_le(
                                    lad.types@[k].1.identifier@,
                                    lad.types@[i].1.identifier@,
                                )
                            })
                }
        }),
{
    let order = naming_order(lad);
    let all = allocated(wanted, used);
    let given = by_type(lad.types@.len(), order, all);
    lemma_naming_order(lad);
    assert(order.contains(i));
    let a = order.index_of(i);
    assert(0 <= a < order.len() && order[a] == i);
    lemma_allocated_at(wanted, used, a);
    lemma_allocated_present(wanted, used);
    let earlier = all.take(a);
    let taken = used + present(earlier);
    lemma_least_suffix_exists_from(want, taken, 0);
    let m = choose|m: nat| is_least_suffix(want, taken, m);
    assert(is_least_suffix(want, taken, m));
    assert(given[i] == Some(suffixed(want, m)));
    assert(!used.contains(suffixed(want, m))) by {
        if used.contains(suffixed(want, m)) {
            let k = choose|k: int| 0 <= k < used.len() && used[k] == suffixed(want, m);
            assert(taken[k] == suffixed(want, m));
        }
    }
    assert forall|j: nat| j < m implies used.contains(#[trigger] suffixed(want, j)) || exists|
        k: int,
    |
        0 <= k < lad.types@.len() && declared(lad, k) && #[trigger] given[k] == Some(
            suffixed(want, j),
        ) && (if lad.types@[k].1.identifier@ == lad.types@[i].1.identifier@ {
            k < i
        } else {
            text_le(lad.types@[k].1.identifier@, lad.types@[i].1.identifier@)
        }) by {
        let name = suffixed(want, j);
        assert(taken.contains(name));
        if !used.contains(name) {
            let t = choose|t: int| 0 <= t < taken.len() && taken[t] == name;
            if t < used.len() {
                assert(used[t] == name);
            }
            assert(present(earlier)[t - used.len()] == name);
            assert(present(earlier).contains(name));
            lemma_present_contains(earlier, name);
            let b = choose|b: int| 0 <= b < earlier.len() && #[trigger] earlier[b] == Some(name);
            lemma_naming_order_ascends(lad, b, a);
            let k = order[b];
            assert(order.contains(k));
            assert(order.index_of(k) == b);
            assert(given[k] == Some(name));
        }
    }
}

/// A suffix of so many underscores is that.
pub proof fn law_underscores(name: Seq<char>, k: nat)
    ensures
        suffixed(name, 0) == name,
        suffixed(name, k + 1) == suffixed(name, k).push('_'),
{
    assert(suffixed(name, 0) =~= name);
    assert(suffixed(name, k + 1) =~= suffixed(name, k).push('_'));
}

/// A class is named by the safe form of its type's identifier, `Unknown` if
/// there is nothing to name it by, with the fewest underscores behind it that
/// make the name differ from those of the brands, of the base class where there
/// is one, and of the classes whose types come before it by identifier and
/// place in the file. Types that a primitive stands for have no class.
#[verifier::rlimit(40)]
pub proof fn law_class_name(lad: LadFile, options: Options, i: int, want: Seq<char>)
    requires
        0 <= i < lad.types@.len(),
        want == if sanitized(lad.types@[i].1.identifier@).len() == 0 {
            "Unknown"@
        } else {
            sanitized(lad.types@[i].1.identifier@)
        },
    ensures
        ({
            let names = naming::naming(lad, options).types.names;
            let identifier = lad.types@[i].1.identifier@;
            if lad.types@[i].1.metadata.mapped_to_primitive_kind is Some {
                names[i] is None
            } else {
                exists|m: nat|
                    {
                        &&& names[i] == Some(#[trigger] suffixed(want, m))
                        &&& names[i] != Some("Reg"@)
                        &&& names[i] != Some("ResReg"@)
                        &&& names[i] != Some("TypeReg"@)
                        &&& reference_type(lad) is Some ==> names[i] != Some("ReflectReference"@)
                        &&& forall|j: nat|
                            j < m ==> {
                                let less = #[trigger] suffixed(want, j);
                                ||| less == "Reg"@
                                ||| less == "ResReg"@
                                ||| less == "TypeReg"@
                                ||| reference_type(lad) is Some && less == "ReflectReference"@
                                ||| exists|k: int|
                                    0 <= k < lad.types@.len() && #[trigger] names[k] == Some(less)
                                        && (if lad.types@[k].1.identifier@ == identifier {
                                        k < i
                                    } else {
                                        text_le(lad.types@[k].1.identifier@, identifier)
                                    })
                            }
                    }
            }
        }),
{
    let names = naming::naming(lad, options).types.names;
    let identifier = lad.types@[i].1.identifier@;
    law_class_names(lad, options, i);
    if lad.types@[i].1.metadata.mapped_to_primitive_kind is None {
        let order = naming_order(lad);
        let wanted = wanted_classes(lad, order);
        let used = taken_from_the_start(reference_type(lad) is Some);
        lemma_naming_order(lad);
        lemma_brand_texts();
        assert(order.contains(i));
        assert(wanted[order.index_of(i)] == Some(want));
        lemma_handed_out(lad, wanted, used, i, want);
        assert(used[0] == "Reg"@ && used[1] == "ResReg"@ && used[2] == "TypeReg"@);
        assert(used.contains("Reg"@) && used.contains("ResReg"@) && used.contains("TypeReg"@));
        if reference_type(lad) is Some {
            assert(used[3] == "ReflectReference"@);
            assert(used.contains("ReflectReference"@));
        }
        let m = choose|m: nat|
            {
                &&& names[i] == Some(#[trigger] suffixed(want, m))
                &&& !used.contains(suffixed(want, m))
                &&& forall|j: nat|
                    j < m ==> used.contains(#[trigger] suffixed(want, j)) || exists|k: int|
                        0 <= k < lad.types@.len() && declared(lad, k) && #[trigger] names[k]
                            == Some(suffixed(want, j)) && (if lad.types@[k].1.identifier@
                            == lad.types@[i].1.identifier@ {
                            k < i
                        } else {
                            text_le(lad.types@[k].1.identifier@, lad.types@[i].1.identifier@)
                        })
            };
        assert forall|j: nat| j < m implies {
            let less = #[trigger] suffixed(want, j);
            ||| less == "Reg"@
            ||| less == "ResReg"@
            ||| less == "TypeReg"@
            ||| reference_type(lad) is Some && less == "ReflectReference"@
            ||| exists|k: int|
                0 <= k < lad.types@.len() && #[trigger] names[k] == Some(less) && (
                if lad.types@[k].1.identifier@ == identifier {
                    k < i
                } else {
                    text_le(lad.types@[k].1.identifier@, identifier)
                })
        } by {
            let less = suffixed(want, j);
            if used.contains(less) {
                let t = choose|t: int| 0 <= t < used.len() && used[t] == less;
                assert(t == 0 || t == 1 || t == 2 || t == 3);
            }
        }
        let name = suffixed(want, m);
        assert(names[i] == Some(name));
        assert(name != "Reg"@ && name != "ResReg"@ && name != "TypeReg"@);
        assert(reference_type(lad) is Some ==> name != "ReflectReference"@);
    }
}

/// A variant-name union is exported for exactly the enums with a class and a
/// variant. It is named by the class and `Variant`, with the fewest underscores
/// behind it that make the name differ from those of the brands, of the base
/// class, of all classes, and of the unions whose types come before it.
#[verifier::rlimit(40)]
pub proof fn law_variant_alias(lad: LadFile, options: Options, i: int)
    requires
        0 <= i < lad.types@.len(),
    ensures
        ({
            let n = naming::naming(lad, options);
            let names = n.types.names;
            let aliases = n.variant_aliases;
            let identifier = lad.types@[i].1.identifier@;
            let want = names[i]->0 + "Variant"@;
            if !(lad.types@[i].1.metadata.mapped_to_primitive_kind is None && (
            lad.types@[i].1.layout matches LadTypeLayout::Enum(variants) && variants@.len() > 0)) {
                aliases[i] is None
            } else {
                exists|m: nat|
                    {
                        &&& aliases[i] == Some(#[trigger] suffixed(want, m))
                        &&& forall|j: nat|
                            j < m ==> {
                                let less = #[trigger] suffixed(want, j);
                                ||| less == "Reg"@
                                ||| less == "ResReg"@
                                ||| less == "TypeReg"@
                                ||| reference_type(lad) is Some && less == "ReflectReference"@
                                ||| exists|k: int|
                                    0 <= k < lad.types@.len() && #[trigger] names[k] == Some(less)
                                ||| exists|k: int|
                                    0 <= k < lad.types@.len() && #[trigger] aliases[k] == Some(
                                        less,
                                    ) && (if lad.types@[k].1.identifier@ == identifier {
                                        k < i
                                    } else {
                                        text_le(lad.types@[k].1.identifier@, identifier)
                                    })
                            }
                    }
            }
        }),
{
    let n = naming::naming(lad, options);
    let names = n.types.names;
    let aliases = n.variant_aliases;
    let identifier = lad.types@[i].1.identifier@;
    let want = names[i]->0 + "Variant"@;
    law_aliases(lad, options, i);
    if aliases[i] is Some {
        let order = naming_order(lad);
        let classes = class_names(lad);
        let wanted = wanted_variant_aliases(lad, order, classes);
        let used = taken_after_classes(lad);
        lemma_naming_order(lad);
        assert(order.contains(i));
        lemma_by_type(lad.types@.len(), order, classes, i);
        assert(wanted[order.index_of(i)] == Some(want));
        lemma_handed_out(lad, wanted, used, i, want);
        let m = choose|m: nat|
            {
                &&& aliases[i] == Some(#[trigger] suffixed(want, m))
                &&& !used.contains(suffixed(want, m))
                &&& forall|j: nat|
                    j < m ==> used.contains(#[trigger] suffixed(want, j)) || exists|k: int|
                        0 <= k < lad.types@.len() && declared(lad, k) && #[trigger] aliases[k]
                            == Some(suffixed(want, j)) && (if lad.types@[k].1.identifier@
                            == lad.types@[i].1.identifier@ {
                            k < i
                        } else {
                            text_le(lad.types@[k].1.identifier@, lad.types@[i].1.identifier@)
                        })
            };
        assert forall|j: nat| j < m implies {
            let less = #[trigger] suffixed(want, j);
            ||| less == "Reg"@
            ||| less == "ResReg"@
            ||| less == "TypeReg"@
            ||| reference_type(lad) is Some && less == "ReflectReference"@
            ||| exists|k: int| 0 <= k < lad.types@.len() && #[trigger] names[k] == Some(less)
            ||| exists|k: int|
                0 <= k < lad.types@.len() && #[trigger] aliases[k] == Some(less) && (
                if lad.types@[k].1.identifier@ == identifier {
                    k < i
                } else {
                    text_le(lad.types@[k].1.identifier@, identifier)
                })
        } by {
            let less = suffixed(want, j);
            if used.contains(less) {
                lemma_taken_by_classes(lad, options, less);
            }
        }
    }
}

/// What is taken once the classes are named is the name of a brand, of the
/// base class or of a class.
proof fn lemma_taken_by_classes(lad: LadFile, options: Options, name: Seq<char>)
    requires
        taken_after_classes(lad).contains(name),
    ensures
        ({
            let names = naming::naming(lad, options).types.names;
            ||| name == "Reg"@
            ||| name == "ResReg"@
            ||| name == "TypeReg"@
            ||| reference_type(lad) is Some && name == "ReflectReference"@
            ||| exists|k: int| 0 <= k < lad.types@.len() && #[trigger] names[k] == Some(name)
        }),
{
    let names = naming::naming(lad, options).types.names;
    let start = taken_from_the_start(reference_type(lad) is Some);
    let classes = class_names(lad);
    let order = naming_order(lad);
    let all = taken_after_classes(lad);
    lemma_brand_texts();
    let t = choose|t: int| 0 <= t < all.len() && all[t] == name;
    if t < start.len() {
        assert(start[t] == name);
        assert(t == 0 || t == 1 || t == 2 || t == 3);
    } else {
        assert(present(classes)[t - start.len()] == name);
        assert(present(classes).contains(name));
        lemma_present_contains(classes, name);
        lemma_in_order(lad, classes, name, wanted_classes(lad, order), start);
    }
}

/// What is handed out is held by a type.
proof fn lemma_in_order(
    lad: LadFile,
    given: Seq<Option<Seq<char>>>,
    name: Seq<char>,
    wanted: Seq<Option<Seq<char>>>,
    used: Seq<Seq<char>>,
)
    requires
        given == allocated(wanted, used),
        wanted.len() == naming_order(lad).len(),
        exists|k: int| 0 <= k < given.len() && #[trigger] given[k] == Some(name),
    ensures
        exists|i: int|
            0 <= i < lad.types@.len() && #[trigger] by_type(
                lad.types@.len(),
                naming_order(lad),
                given,
            )[i] == Some(name),
{
    let order = naming_order(lad);
    lemma_naming_order(lad);
    lemma_allocated_present(wanted, used);
    let k = choose|k: int| 0 <= k < given.len() && #[trigger] given[k] == Some(name);
    let i = order[k];
    assert(order.contains(i));
    assert(order.index_of(i) == k);
    assert(by_type(lad.types@.len(), order, given)[i] == Some(name));
}

/// A payload alias is exported for exactly the types with a class that have a
/// named field or a variant, if the options ask for them. It is named by the
/// class and `Init`, with the fewest underscores behind it that make the name
/// differ from those of the brands, of the base class, of all classes and
/// variant-name unions, and of the payloads whose types come before it.
#[verifier::rlimit(40)]
pub proof fn law_init_alias(lad: LadFile, options: Options, i: int)
    requires
        0 <= i < lad.types@.len(),
    ensures
        ({
            let n = naming::naming(lad, options);
            let names = n.types.names;
            let variants = n.variant_aliases;
            let aliases = n.init_aliases;
            let identifier = lad.types@[i].1.identifier@;
            let want = names[i]->0 + "Init"@;
            let filled = match lad.types@[i].1.layout {
                LadTypeLayout::MonoVariant(LadVariant::Struct { name: _, fields }) => fields@.len()
                    > 0,
                LadTypeLayout::Enum(all) => all@.len() > 0,
                _ => false,
            };
            if !(options.init_types && lad.types@[i].1.metadata.mapped_to_primitive_kind is None
                && filled) {
                aliases[i] is None
            } else {
                exists|m: nat|
                    {
                        &&& aliases[i] == Some(#[trigger] suffixed(want, m))
                        &&& forall|j: nat|
                            j < m ==> {
                                let less = #[trigger] suffixed(want, j);
                                ||| less == "Reg"@
                                ||| less == "ResReg"@
                                ||| less == "TypeReg"@
                                ||| reference_type(lad) is Some && less == "ReflectReference"@
                                ||| exists|k: int|
                                    0 <= k < lad.types@.len() && #[trigger] names[k] == Some(less)
                                ||| exists|k: int|
                                    0 <= k < lad.types@.len() && #[trigger] variants[k] == Some(
                                        less,
                                    )
                                ||| exists|k: int|
                                    0 <= k < lad.types@.len() && #[trigger] aliases[k] == Some(
                                        less,
                                    ) && (if lad.types@[k].1.identifier@ == identifier {
                                        k < i
                                    } else {
                                        text_le(lad.types@[k].1.identifier@, identifier)
                                    })
                            }
                    }
            }
        }),
{
    let n = naming::naming(lad, options);
    let names = n.types.names;
    let variants = n.variant_aliases;
    let aliases = n.init_aliases;
    let identifier = lad.types@[i].1.identifier@;
    let want = names[i]->0 + "Init"@;
    law_aliases(lad, options, i);
    if aliases[i] is Some {
        let order = naming_order(lad);
        let classes = class_names(lad);
        let unions = variant_alias_names(lad);
        let wanted = wanted_init_aliases(lad, order, classes, options.init_types);
        let used = taken_after_variants(lad);
        lemma_naming_order(lad);
        assert(order.contains(i));
        lemma_by_type(lad.types@.len(), order, classes, i);
        assert(wanted[order.index_of(i)] == Some(want));
        lemma_handed_out(lad, wanted, used, i, want);
        let m = choose|m: nat|
            {
                &&& aliases[i] == Some(#[trigger] suffixed(want, m))
                &&& !used.contains(suffixed(want, m))
                &&& forall|j: nat|
                    j < m ==> used.contains(#[trigger] suffixed(want, j)) || exists|k: int|
                        0 <= k < lad.types@.len() && declared(lad, k) && #[trigger] aliases[k]
                            == Some(suffixed(want, j)) && (if lad.types@[k].1.identifier@
                            == lad.types@[i].1.identifier@ {
                            k < i
                        } else {
                            text_le(lad.types@[k].1.identifier@, lad.types@[i].1.identifier@)
                        })
            };
        assert forall|j: nat| j < m implies {
            let less = #[trigger] suffixed(want, j);
            ||| less == "Reg"@
            ||| less == "ResReg"@
            ||| less == "TypeReg"@
            ||| reference_type(lad) is Some && less == "ReflectReference"@
            ||| exists|k: int| 0 <= k < lad.types@.len() && #[trigger] names[k] == Some(less)
            ||| exists|k: int| 0 <= k < lad.types@.len() && #[trigger] variants[k] == Some(less)
            ||| exists|k: int|
                0 <= k < lad.types@.len() && #[trigger] aliases[k] == Some(less) && (
                if lad.types@[k].1.identifier@ == identifier {
                    k < i
                } else {
                    text_le(lad.types@[k].1.identifier@, identifier)
                })
        } by {
            let less = suffixed(want, j);
            if used.contains(less) {
                let before = taken_after_classes(lad);
                let t = choose|t: int| 0 <= t < used.len() && used[t] == less;
                if t < before.len() {
                    assert(before[t] == less);
                    lemma_taken_by_classes(lad, options, less);
                } else {
                    assert(present(unions)[t - before.len()] == less);
                    assert(present(unions).contains(less));
                    lemma_present_contains(unions, less);
                    lemma_in_order(
                        lad,
                        unions,
                        less,
                        wanted_variant_aliases(lad, order, classes),
                        before,
                    );
                }
            }
        }
    }
}

/// The reference proxy type is a type that the reference primitive stands for,
/// if there is one: of several the one with the least path, and of several
/// still the first in the file.
pub proof fn law_reference_type(lad: LadFile, options: Options, j: int)
    requires
        0 <= j < lad.types@.len(),
        lad.types@[j].1.metadata.mapped_to_primitive_kind matches Some(p) && p
            is ReflectReference,
    ensures
        naming::naming(lad, options).reflect_ref == reference_type(lad),
        reference_type(lad) matches Some(i) && {
            &&& 0 <= i < lad.types@.len()
            &&& lad.types@[i].1.metadata.mapped_to_primitive_kind matches Some(p) && p
                is ReflectReference
            &&& text_le(lad.types@[i].1.path@, lad.types@[j].1.path@)
            &&& lad.types@[i].1.path@ == lad.types@[j].1.path@ ==> i <= j
        },
{
    let all = positions_where(lad.types@.len(), |i: int| is_reference_type(lad, i));
    lemma_positions_where(lad.types@.len(), |i: int| is_reference_type(lad, i));
    assert(is_reference_type(lad, j));
    assert(all.contains(j));
    lemma_least_path(lad, all);
    lemma_least_path_is_least(lad, all);
    lemma_least_path_is_first(lad, all);
    let i = reference_type(lad)->0;
    assert(all.contains(i));
}

/// Without a type that the reference primitive stands for there is no
/// reference proxy type.
pub proof fn law_no_reference_type(lad: LadFile, options: Options)
    requires
        forall|j: int|
            0 <= j < lad.types@.len() ==> !((
            #[trigger] lad.types@[j]).1.metadata.mapped_to_primitive_kind matches Some(p) && p
                is ReflectReference),
    ensures
        reference_type(lad) is None,
        naming::naming(lad, options).reflect_ref is None,
{
    let all = positions_where(lad.types@.len(), |i: int| is_reference_type(lad, i));
    lemma_positions_where(lad.types@.len(), |i: int| is_reference_type(lad, i));
    lemma_least_path(lad, all);
    if reference_type(lad) is Some {
        let i = reference_type(lad)->0;
        assert(all.contains(i));
        assert(lad.types@[i].1.metadata.mapped_to_primitive_kind is Some);
    }
}

/// Of types with the same least path the first is taken.
proof fn lemma_least_path_is_first(lad: LadFile, types: Seq<int>)
    requires
        forall|a: int, b: int|
            0 <= a < b < types.len() ==> #[trigger] types[a] < #[trigger] types[b],
    ensures
        least_path(lad, types) matches Some(i) ==> forall|j: int| #[trigger]
            types.contains(j) && lad.types@[i].1.path@ == lad.types@[j].1.path@ ==> i <= j,
    decreases types.len(),
{
    if types.len() > 0 {
        let front = types.drop_last();
        let last = types.last();
        assert forall|a: int, b: int| 0 <= a < b < front.len() implies #[trigger] front[a]
            < #[trigger] front[b] by {
            assert(types[a] < types[b]);
        }
        lemma_least_path_is_first(lad, front);
        lemma_least_path_is_least(lad, front);
        lemma_least_path(lad, front);
        let i = least_path(lad, types)->0;
        assert forall|j: int| #[trigger]
            types.contains(j) && lad.types@[i].1.path@ == lad.types@[j].1.path@ implies i
            <= j by {
            let k = choose|k: int| 0 <= k < types.len() && types[k] == j;
            if k < front.len() {
                assert(front[k] == j);
                assert(front.contains(j));
                let f = least_path(lad, front)->0;
                if i == last && i != f {
                    lemma_text_le_reflexive(lad.types@[i].1.path@);
                    assert(text_le(lad.types@[f].1.path@, lad.types@[j].1.path@));
                }
            } else {
                if least_path(lad, front) is Some {
                    let f = least_path(lad, front)->0;
                    let t = choose|t: int| 0 <= t < front.len() && front[t] == f;
                    assert(types[t] < types[types.len() - 1]);
                }
            }
        }
    }
}

/// The registration types are declared types that go by the name of their
/// brand's class, if there are any: of several one that `bevy_mod_scripting`
/// owns, of several still the one with the least path, and then the first in
/// the file.
pub proof fn law_registration_types(lad: LadFile, options: Options, j: int)
    requires
        0 <= j < lad.types@.len(),
        lad.types@[j].1.metadata.mapped_to_primitive_kind is None,
    ensures
        ({
            let regs = naming::naming(lad, options).types.regs;
            let owned = |k: int| "bevy_mod_scripting"@.is_prefix_of(lad.types@[k].1.path@);
            let preferred = |i: int|
                {
                    &&& 0 <= i < lad.types@.len()
                    &&& lad.types@[i].1.metadata.mapped_to_primitive_kind is None
                    &&& lad.types@[i].1.identifier@ == lad.types@[j].1.identifier@
                    &&& owned(j) ==> owned(i)
                    &&& owned(i) == owned(j) ==> text_le(
                        lad.types@[i].1.path@,
                        lad.types@[j].1.path@,
                    ) && (lad.types@[i].1.path@ == lad.types@[j].1.path@ ==> i <= j)
                };
            &&& lad.types@[j].1.identifier@ == "ScriptComponentRegistration"@ ==> (
            regs[0] matches Some(i) && preferred(i))
            &&& lad.types@[j].1.identifier@ == "ScriptResourceRegistration"@ ==> (
            regs[1] matches Some(i) && preferred(i))
            &&& lad.types@[j].1.identifier@ == "ScriptTypeRegistration"@ ==> (
            regs[2] matches Some(i) && preferred(i))
        }),
{
    lemma_brand_texts();
    let identifier = lad.types@[j].1.identifier@;
    let n = lad.types@.len();
    let owned = positions_where(n, |i: int| goes_by_in_bms(lad, identifier, i));
    let all = positions_where(n, |i: int| goes_by(lad, identifier, i));
    lemma_positions_where(n, |i: int| goes_by_in_bms(lad, identifier, i));
    lemma_positions_where(n, |i: int| goes_by(lad, identifier, i));
    assert(goes_by(lad, identifier, j));
    assert(all.contains(j));
    lemma_least_path(lad, owned);
    lemma_least_path(lad, all);
    lemma_least_path_is_least(lad, owned);
    lemma_least_path_is_least(lad, all);
    lemma_least_path_is_first(lad, owned);
    lemma_least_path_is_first(lad, all);
    if "bevy_mod_scripting"@.is_prefix_of(lad.types@[j].1.path@) {
        assert(goes_by_in_bms(lad, identifier, j));
        assert(owned.contains(j));
    }
    let i = registration_type(lad, identifier)->0;
    assert(registration_type(lad, identifier) is Some);
    if least_path(lad, owned) is Some {
        assert(owned.contains(i));
        assert(goes_by_in_bms(lad, identifier, i));
    } else {
        assert(all.contains(i));
        assert(goes_by(lad, identifier, i));
        if "bevy_mod_scripting"@.is_prefix_of(lad.types@[i].1.path@) {
            assert(goes_by_in_bms(lad, identifier, i));
            assert(owned.contains(i));
        }
    }
}

/// A registration type is never made up: there are three at most, and each is a
/// declared type that goes by the name of its brand's class.
pub proof fn law_registration_types_are_recorded(lad: LadFile, options: Options, b: int)
    requires
        0 <= b < 3,
    ensures
        ({
            let regs = naming::naming(lad, options).types.regs;
            &&& regs.len() == 3
            &&& regs[b] matches Some(i) ==> {
                &&& 0 <= i < lad.types@.len()
                &&& lad.types@[i].1.metadata.mapped_to_primitive_kind is None
                &&& lad.types@[i].1.identifier@ == if b == 0 {
                    "ScriptComponentRegistration"@
                } else if b == 1 {
                    "ScriptResourceRegistration"@
                } else {
                    "ScriptTypeRegistration"@
                }
            }
        }),
{
    lemma_brand_texts();
    let n = lad.types@.len();
    let identifier = BRANDS@[b].0@;
    let owned = positions_where(n, |i: int| goes_by_in_bms(lad, identifier, i));
    let all = positions_where(n, |i: int| goes_by(lad, identifier, i));
    lemma_positions_where(n, |i: int| goes_by_in_bms(lad, identifier, i));
    lemma_positions_where(n, |i: int| goes_by(lad, identifier, i));
    lemma_least_path(lad, owned);
    lemma_least_path(lad, all);
    if registration_type(lad, identifier) is Some {
        let i = registration_type(lad, identifier)->0;
        assert(owned.contains(i) || all.contains(i));
        assert(goes_by(lad, identifier, i));
    }
}

/// The file records the function behind `variant_name` exactly if the reference
/// proxy type has a function of that name that takes a reference and returns
/// something with a string in it.
pub proof fn law_variant_name_is_recorded(lad: LadFile, options: Options)
    ensures
        naming::naming(lad, options).has_variant_name <==> (reference_type(lad) matches Some(r)
            && exists|j: int, a: int|
            {
                let func = lad.functions@[j];
                &&& 0 <= j < lad.functions@.len()
                &&& 0 <= a < func.arguments@.len()
                &&& func.namespace matches LadFunctionNamespace::Type(t) && t@
                    == lad.types@[r].0@
                &&& func.identifier@ == "variant_name"@
                &&& (#[trigger] (#[trigger] lad.functions@[j]).arguments@[a]).kind matches
                    LadFieldOrVariableKind::Primitive(p) && p is ReflectReference
                &&& holds_string(func.return_type.kind)
            }),
{
    if reference_type(lad) is Some {
        let id = lad.types@[reference_type(lad)->0].0@;
        if records_variant_name(lad) {
            let j = choose|j: int|
                0 <= j < lad.functions@.len() && backs_variant_name(
                    #[trigger] lad.functions@[j],
                    id,
                );
            let func = lad.functions@[j];
            let a = choose|a: int|
                0 <= a < func.arguments@.len() && reference_primitive(
                    (#[trigger] func.arguments@[a]).kind,
                );
            assert(lad.functions@[j].arguments@[a].kind is Primitive);
        }
        if naming::naming(lad, options).has_variant_name == false {
            assert forall|j: int, a: int|
                {
                    let func = lad.functions@[j];
                    &&& 0 <= j < lad.functions@.len()
                    &&& 0 <= a < func.arguments@.len()
                    &&& func.namespace matches LadFunctionNamespace::Type(t) && t@ == id
                    &&& func.identifier@ == "variant_name"@
                    &&& (#[trigger] (#[trigger] lad.functions@[j]).arguments@[a]).kind matches
                        LadFieldOrVariableKind::Primitive(p) && p is ReflectReference
                    &&& holds_string(func.return_type.kind)
                } implies false by {
                assert(!backs_variant_name(lad.functions@[j], id));
                assert(reference_primitive(lad.functions@[j].arguments@[a].kind));
            }
        }
    }
}

} // verus!
