//! What is warned about: everything that is left out, and in which words.

use vstd::prelude::*;

use crate::classes::{class_order, law_class_order};
use crate::ident::{callable, field_key_text};
use crate::lad::{LadFile, LadNamedField, LadTypeLayout, LadVariant};
use crate::laws::law_class_names;
use crate::members::functions_of;
use crate::naming::{self, lemma_positions_where, positions_where, reference_type};
use crate::options::Options;
use crate::order::at_positions;
use crate::overloads::{overloads, PlaceView};
use crate::render::base_place;
use crate::text::{chained, text_le};
use crate::warnings::{
    class_warning_lists, field_warnings, file_warnings, is_taken, is_unnameable, member_warnings,
    taken_keys, unnameable,
};
use crate::fields::field_keys;

verus! {

/// Exactly the fields whose key an earlier field has are warned about, in their
/// order.
pub proof fn law_field_warnings(owner: Seq<char>, fields: Seq<LadNamedField>) -> (taken: Seq<int>)
    ensures
        forall|a: int, b: int|
            0 <= a < b < taken.len() ==> #[trigger] taken[a] < #[trigger] taken[b],
        forall|k: int| #[trigger]
            taken.contains(k) <==> 0 <= k < fields.len() && exists|e: int|
                0 <= e < k && field_key_text((#[trigger] fields[e]).name@) == field_key_text(
                    fields[k].name@,
                ),
        field_warnings(owner, fields) == taken.map_values(
            |k: int|
                "skipping field `"@ + fields[k].name@ + "` on `"@ + owner + "`: key `"@
                    + field_key_text(fields[k].name@) + "` is already taken"@,
        ),
{
    let taken = taken_keys(fields);
    let keys = field_keys(fields);
    lemma_positions_where(fields.len(), |i: int| is_taken(fields, i));
    assert forall|k: int| #[trigger] taken.contains(k) <==> 0 <= k < fields.len() && exists|e: int|
        0 <= e < k && field_key_text((#[trigger] fields[e]).name@) == field_key_text(
            fields[k].name@,
        ) by {
        if 0 <= k < fields.len() {
            if is_taken(fields, k) {
                let e = choose|e: int| 0 <= e < keys.take(k).len() && keys.take(k)[e] == keys[k];
                assert(field_key_text(fields[e].name@) == field_key_text(fields[k].name@));
            }
            if exists|e: int|
                0 <= e < k && field_key_text((#[trigger] fields[e]).name@) == field_key_text(
                    fields[k].name@,
                ) {
                let e = choose|e: int|
                    0 <= e < k && field_key_text((#[trigger] fields[e]).name@) == field_key_text(
                        fields[k].name@,
                    );
                assert(keys.take(k)[e] == keys[k]);
                assert(is_taken(fields, k));
            }
        }
    }
    assert forall|d: int| 0 <= d < taken.len() implies 0 <= #[trigger] taken[d]
        < fields.len() by {
        assert(taken.contains(taken[d]));
    }
    assert(field_warnings(owner, fields) =~= taken.map_values(
        |k: int|
            "skipping field `"@ + fields[k].name@ + "` on `"@ + owner + "`: key `"@
                + field_key_text(fields[k].name@) + "` is already taken"@,
    ));
    taken
}

/// Exactly the functions whose name cannot be bound are warned about, in their
/// order.
pub proof fn law_member_warnings(lad: LadFile, owner: Seq<char>, fns: Seq<int>)
    ensures
        member_warnings(lad, owner, fns) == fns.filter(
            |j: int| callable(lad.functions@[j].identifier@) is None,
        ).map_values(
            |j: int|
                "skipping `"@ + lad.functions@[j].identifier@ + "` on `"@ + owner
                    + "`: name is a reserved Luau keyword"@,
        ),
{
    let item = |j: int| callable(lad.functions@[j].identifier@) is None;
    let position = |k: int| is_unnameable(lad.functions@[fns[k]]);
    lemma_picked_positions(fns, item, position, fns.len());
    assert(fns.take(fns.len() as int) =~= fns);
    assert(unnameable(lad, fns) == fns.filter(item));
    assert(member_warnings(lad, owner, fns) =~= fns.filter(item).map_values(
        |j: int|
            "skipping `"@ + lad.functions@[j].identifier@ + "` on `"@ + owner
                + "`: name is a reserved Luau keyword"@,
    ));
}

/// What stands at the positions that satisfy a predicate are the items that do.
proof fn lemma_picked_positions(
    fns: Seq<int>,
    item: spec_fn(int) -> bool,
    position: spec_fn(int) -> bool,
    k: nat,
)
    requires
        k <= fns.len(),
        forall|i: int| 0 <= i < fns.len() ==> #[trigger] position(i) == item(fns[i]),
    ensures
        at_positions(fns, positions_where(k, position)) == fns.take(k as int).filter(item),
    decreases k,
{
    reveal(Seq::filter);
    let picked = at_positions(fns, positions_where(k, position));
    if k == 0 {
        assert(picked =~= fns.take(0).filter(item));
    } else {
        let last = k - 1;
        lemma_picked_positions(fns, item, position, last as nat);
        assert(fns.take(k as int).drop_last() =~= fns.take(last));
        assert(position(last) == item(fns[last]));
        let before = positions_where(last as nat, position);
        if item(fns[last]) {
            assert(positions_where(k, position) == before.push(last));
            assert(picked =~= at_positions(fns, before).push(fns[last]));
        } else {
            assert(positions_where(k, position) == before);
        }
    }
}

/// What is warned about in a file: the functions of the base class, and then,
/// class by class in order of their names, the fields of a struct's payload
/// where there is one, its own fields, and the functions of the class.
pub proof fn law_file_warnings(lad: LadFile, options: Options) -> (classes: Seq<int>)
    ensures
        classes.no_duplicates(),
        forall|i: int| #[trigger]
            classes.contains(i) <==> 0 <= i < lad.types@.len()
                && lad.types@[i].1.metadata.mapped_to_primitive_kind is None,
        ({
            let n = naming::naming(lad, options);
            &&& forall|a: int, b: int|
                0 <= a < b < classes.len() ==> text_le(
                    n.types.names[#[trigger] classes[a]]->0,
                    n.types.names[#[trigger] classes[b]]->0,
                )
            &&& file_warnings(lad, n) == (match reference_type(lad) {
                Some(r) => member_warnings(
                    lad,
                    "ReflectReference"@,
                    overloads(
                        lad,
                        n.types,
                        PlaceView { owner: Some("ReflectReference"@), is_base: true },
                        functions_of(lad, lad.types@[r].0@),
                    ),
                ),
                None => Seq::empty(),
            }) + chained(
                classes.map_values(
                    |i: int|
                        {
                            let class = n.types.names[i]->0;
                            let own = match lad.types@[i].1.layout {
                                LadTypeLayout::MonoVariant(
                                    LadVariant::Struct { name: _, fields },
                                ) => field_warnings(class, fields@),
                                _ => Seq::empty(),
                            };
                            (if n.init_aliases[i] is Some {
                                own
                            } else {
                                Seq::empty()
                            }) + own + member_warnings(
                                lad,
                                class,
                                overloads(
                                    lad,
                                    n.types,
                                    PlaceView { owner: n.types.names[i], is_base: false },
                                    functions_of(lad, lad.types@[i].0@),
                                ),
                            )
                        },
                ),
            )
        }),
{
    let n = naming::naming(lad, options);
    let classes = class_order(n.types);
    law_class_order(n.types);
    assert forall|i: int| #[trigger] classes.contains(i) <==> 0 <= i < lad.types@.len()
        && lad.types@[i].1.metadata.mapped_to_primitive_kind is None by {
        if 0 <= i < lad.types@.len() {
            law_class_names(lad, options, i);
        }
    }
    assert(base_place() == PlaceView { owner: Some("ReflectReference"@), is_base: true });
    assert(class_warning_lists(lad, n) =~= classes.map_values(
        |i: int|
            {
                let class = n.types.names[i]->0;
                let own = match lad.types@[i].1.layout {
                    LadTypeLayout::MonoVariant(LadVariant::Struct { name: _, fields }) => {
                        field_warnings(class, fields@)
                    },
                    _ => Seq::empty(),
                };
                (if n.init_aliases[i] is Some {
                    own
                } else {
                    Seq::empty()
                }) + own + member_warnings(
                    lad,
                    class,
                    overloads(
                        lad,
                        n.types,
                        PlaceView { owner: n.types.names[i], is_base: false },
                        functions_of(lad, lad.types@[i].0@),
                    ),
                )
            },
    ));
    classes
}

} // verus!
