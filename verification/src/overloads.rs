//! Overloads: collapsing copies of a function that render to the same
//! signature.

use vstd::prelude::*;

use crate::converter::Converter;
use crate::ident::{identifier_char, law_sanitized_is_identifier, sanitize, sanitized};
use crate::lad::{LadArgument, LadFile, LadFunction};
use crate::naming::{positions_where, TypeNames};
use crate::order::{
    at_positions, ints, key_le, key_texts, law_sorted_positions, law_sorted_positions_unique,
    lemma_ints_push, lemma_key_texts_push, lemma_sorted_contains, precedes, sorted_by_keys,
    sorted_positions, SortKey,
};
use crate::signature::{
    generic_treatment, has_receiver, param_types, script_args, script_visible, treatment,
};
use crate::text::{
    join, joined, lemma_take_push, lemma_text_le_reflexive, lemma_texts_push, texts,
};
use crate::types::kind_text;

verus! {

/// Where functions are rendered: on a class, under its name, or globally.
pub struct Place<'s> {
    /// The name of the class.
    pub owner: Option<&'s str>,
    /// Whether the class is the reference base class.
    pub is_base: bool,
}

/// A [`Place`] in specifications.
pub struct PlaceView {
    /// The name of the class.
    pub owner: Option<Seq<char>>,
    /// Whether the class is the reference base class.
    pub is_base: bool,
}

impl<'s> View for Place<'s> {
    type V = PlaceView;

    open spec fn view(&self) -> PlaceView {
        PlaceView {
            owner: match self.owner {
                Some(name) => Some(name@),
                None => None,
            },
            is_base: self.is_base,
        }
    }
}

/// Whether a function is called with a receiver in its place.
pub open spec fn called_on_receiver(
    lad: LadFile,
    n: TypeNames,
    place: PlaceView,
    func: LadFunction,
) -> bool {
    place.owner matches Some(owner) && has_receiver(lad, n, func, owner, place.is_base)
}

/// The arguments that are listed for a function in its place.
pub open spec fn listed_args(
    lad: LadFile,
    n: TypeNames,
    place: PlaceView,
    func: LadFunction,
) -> Seq<LadArgument> {
    if called_on_receiver(lad, n, place, func) {
        script_visible(func).skip(1)
    } else {
        script_visible(func)
    }
}

/// The phantom-generic treatment of a function in its place, with or without a
/// receiver.
pub open spec fn treatment_in(
    lad: LadFile,
    n: TypeNames,
    place: PlaceView,
    func: LadFunction,
) -> Option<(int, Seq<char>)> {
    generic_treatment(lad, n, listed_args(lad, n, place, func), func.return_type.kind)
}

/// The return type of a function in its place.
pub open spec fn return_text(
    lad: LadFile,
    n: TypeNames,
    place: PlaceView,
    func: LadFunction,
) -> Seq<char> {
    kind_text(lad, n, func.return_type.kind, treatment_in(lad, n, place, func) is Some)
}

/// The marker of a generic signature.
pub open spec fn generic_marker(
    lad: LadFile,
    n: TypeNames,
    place: PlaceView,
    func: LadFunction,
) -> Seq<char> {
    if treatment_in(lad, n, place, func) is Some {
        "<T>"@
    } else {
        ""@
    }
}

/// The types of what a function is called with in its place, its receiver
/// first.
pub open spec fn rendered_types(
    lad: LadFile,
    n: TypeNames,
    place: PlaceView,
    func: LadFunction,
) -> Seq<Seq<char>> {
    let listed = param_types(
        lad,
        n,
        listed_args(lad, n, place, func),
        treatment_in(lad, n, place, func),
    );
    if called_on_receiver(lad, n, place, func) {
        seq![place.owner->0] + listed
    } else {
        listed
    }
}

/// Identity of a function as it is rendered in its place: name plus argument
/// and return types. Argument names and documentation are left out.
pub open spec fn signature_text(
    lad: LadFile,
    n: TypeNames,
    place: PlaceView,
    func: LadFunction,
) -> Seq<char> {
    sanitized(func.identifier@) + generic_marker(lad, n, place, func) + "("@ + joined(
        rendered_types(lad, n, place, func),
        ", "@,
    ) + ") -> "@ + return_text(lad, n, place, func)
}

/// Identity of the function at the given position. Two functions are copies if
/// they share it.
pub open spec fn overload_key(lad: LadFile, n: TypeNames, place: PlaceView, j: int) -> Seq<char> {
    signature_text(lad, n, place, lad.functions@[j])
}

/// How much a copy of a function tells the reader.
pub open spec fn documentation_score(func: LadFunction) -> nat {
    let args = script_visible(func);
    positions_where(args.len(), |i: int| args[i].name is Some).len()
        + positions_where(args.len(), |i: int| args[i].documentation is Some).len()
        + (if func.documentation is Some {
        1nat
    } else {
        0nat
    }) + (if func.return_type.documentation is Some {
        1nat
    } else {
        0nat
    })
}

/// Of a function and a later one, the one that is kept if they are copies: the
/// later one only if it tells the reader more.
pub open spec fn better_copy(lad: LadFile, n: TypeNames, place: PlaceView, g: int, f: int) -> int {
    if overload_key(lad, n, place, g) == overload_key(lad, n, place, f) && documentation_score(
        lad.functions@[f],
    ) > documentation_score(lad.functions@[g]) {
        f
    } else {
        g
    }
}

/// Whether a copy of `f` is in `list`.
pub open spec fn has_copy(
    lad: LadFile,
    n: TypeNames,
    place: PlaceView,
    list: Seq<int>,
    f: int,
) -> bool {
    exists|p: int|
        0 <= p < list.len() && overload_key(lad, n, place, #[trigger] list[p]) == overload_key(
            lad,
            n,
            place,
            f,
        )
}

/// The functions with copies collapsed: each in the place of its first copy,
/// the one kept that tells the reader the most.
pub open spec fn collapsed(lad: LadFile, n: TypeNames, place: PlaceView, fns: Seq<int>) -> Seq<int>
    decreases fns.len(),
{
    if fns.len() == 0 {
        Seq::empty()
    } else {
        let front = collapsed(lad, n, place, fns.drop_last());
        if has_copy(lad, n, place, front, fns.last()) {
            front.map_values(|g: int| better_copy(lad, n, place, g, fns.last()))
        } else {
            front.push(fns.last())
        }
    }
}

/// What overloads are sorted by: their name, and on ordinary classes and
/// globally their types. The base class keeps overloads of one name in the
/// file's order.
pub open spec fn overload_sort_keys(
    lad: LadFile,
    n: TypeNames,
    place: PlaceView,
    fns: Seq<int>,
) -> Seq<SortKey> {
    fns.map_values(
        |j: int|
            (
                lad.functions@[j].identifier@,
                if place.is_base {
                    Seq::<char>::empty()
                } else {
                    overload_key(lad, n, place, j)
                },
            ),
    )
}

/// The functions of a place as they are rendered: copies collapsed, and
/// sorted.
pub open spec fn overloads(lad: LadFile, n: TypeNames, place: PlaceView, fns: Seq<int>) -> Seq<int> {
    let kept = collapsed(lad, n, place, fns);
    at_positions(kept, sorted_positions(overload_sort_keys(lad, n, place, kept)))
}

/// Whether no two functions in `list` are copies of each other.
pub open spec fn no_copies(lad: LadFile, n: TypeNames, place: PlaceView, list: Seq<int>) -> bool {
    forall|p: int, q: int|
        0 <= p < q < list.len() ==> overload_key(lad, n, place, #[trigger] list[p])
            != overload_key(lad, n, place, #[trigger] list[q])
}

/// Collapsing leaves no copies, keeps only functions that were there, and
/// keeps a copy of each of them.
pub proof fn lemma_collapsed(lad: LadFile, n: TypeNames, place: PlaceView, fns: Seq<int>)
    ensures
        no_copies(lad, n, place, collapsed(lad, n, place, fns)),
        forall|g: int| #[trigger]
            collapsed(lad, n, place, fns).contains(g) ==> fns.contains(g),
        forall|f: int| #[trigger]
            fns.contains(f) ==> has_copy(lad, n, place, collapsed(lad, n, place, fns), f),
    decreases fns.len(),
{
    if fns.len() > 0 {
        let rest = fns.drop_last();
        let last = fns.last();
        lemma_collapsed(lad, n, place, rest);
        let front = collapsed(lad, n, place, rest);
        let all = collapsed(lad, n, place, fns);
        assert(fns[fns.len() - 1] == last);
        assert forall|p: int| 0 <= p < front.len() implies overload_key(
            lad,
            n,
            place,
            #[trigger] all[p],
        ) == overload_key(lad, n, place, front[p]) by {}
        assert forall|p: int, q: int| 0 <= p < q < all.len() implies overload_key(
            lad,
            n,
            place,
            #[trigger] all[p],
        ) != overload_key(lad, n, place, #[trigger] all[q]) by {
            if q < front.len() {
                assert(overload_key(lad, n, place, front[p]) != overload_key(
                    lad,
                    n,
                    place,
                    front[q],
                ));
            } else {
                assert(overload_key(lad, n, place, front[p]) != overload_key(lad, n, place, last));
            }
        }
        assert forall|g: int| #[trigger] all.contains(g) implies fns.contains(g) by {
            let p = choose|p: int| 0 <= p < all.len() && all[p] == g;
            if g != last {
                assert(p < front.len());
                assert(front[p] == g);
                assert(front.contains(g));
                let k = choose|k: int| 0 <= k < rest.len() && rest[k] == g;
                assert(fns[k] == g);
            }
        }
        assert forall|f: int| #[trigger] fns.contains(f) implies has_copy(
            lad,
            n,
            place,
            all,
            f,
        ) by {
            if f == last && !has_copy(lad, n, place, front, last) {
                assert(all[front.len() as int] == last);
                assert(overload_key(lad, n, place, all[front.len() as int]) == overload_key(
                    lad,
                    n,
                    place,
                    f,
                ));
            } else {
                if f != last {
                    let k = choose|k: int| 0 <= k < fns.len() && fns[k] == f;
                    assert(rest[k] == f);
                    assert(rest.contains(f));
                }
                assert(has_copy(lad, n, place, front, f));
                let p = choose|p: int|
                    0 <= p < front.len() && overload_key(lad, n, place, #[trigger] front[p])
                        == overload_key(lad, n, place, f);
                assert(overload_key(lad, n, place, all[p]) == overload_key(
                    lad,
                    n,
                    place,
                    front[p],
                ));
            }
        }
    }
}

/// What is kept of copies tells the reader at least as much as every other
/// copy, and of several that tell the same it is the first.
pub proof fn lemma_collapsed_best(lad: LadFile, n: TypeNames, place: PlaceView, fns: Seq<int>)
    requires
        forall|a: int, b: int| 0 <= a < b < fns.len() ==> #[trigger] fns[a] < #[trigger] fns[b],
    ensures
        forall|g: int, f: int|
            #![trigger collapsed(lad, n, place, fns).contains(g), fns.contains(f)]
            collapsed(lad, n, place, fns).contains(g) && fns.contains(f) && overload_key(
                lad,
                n,
                place,
                g,
            ) == overload_key(lad, n, place, f) ==> documentation_score(lad.functions@[g])
                > documentation_score(lad.functions@[f]) || (documentation_score(
                lad.functions@[g],
            ) == documentation_score(lad.functions@[f]) && g <= f),
    decreases fns.len(),
{
    if fns.len() > 0 {
        let rest = fns.drop_last();
        let last = fns.last();
        assert forall|a: int, b: int| 0 <= a < b < rest.len() implies #[trigger] rest[a]
            < #[trigger] rest[b] by {
            assert(fns[a] < fns[b]);
        }
        lemma_collapsed_best(lad, n, place, rest);
        lemma_collapsed(lad, n, place, rest);
        let front = collapsed(lad, n, place, rest);
        let all = collapsed(lad, n, place, fns);
        assert forall|g: int, f: int|
            #![trigger all.contains(g), fns.contains(f)]
            all.contains(g) && fns.contains(f) && overload_key(lad, n, place, g)
                == overload_key(lad, n, place, f) implies documentation_score(lad.functions@[g])
            > documentation_score(lad.functions@[f]) || (documentation_score(lad.functions@[g])
            == documentation_score(lad.functions@[f]) && g <= f) by {
            let p = choose|p: int| 0 <= p < all.len() && all[p] == g;
            let k = choose|k: int| 0 <= k < fns.len() && fns[k] == f;
            if k < fns.len() - 1 {
                assert(rest[k] == f);
                assert(rest.contains(f));
                if p < front.len() {
                    assert(front.contains(front[p]));
                    assert(overload_key(lad, n, place, front[p]) == overload_key(lad, n, place, f));
                } else {
                    assert(has_copy(lad, n, place, front, f));
                    assert(has_copy(lad, n, place, front, last));
                }
            } else {
                if p < front.len() {
                    assert(front.contains(front[p]));
                    assert(rest.contains(front[p]));
                    let m = choose|m: int| 0 <= m < rest.len() && rest[m] == front[p];
                    assert(fns[m] < fns[fns.len() - 1]);
                }
            }
        }
    }
}

/// One member per distinct signature: among the functions that a place
/// renders no two are copies of each other; all of them were there before; and
/// each function that was there before has a copy among them.
pub proof fn law_one_member_per_signature(
    lad: LadFile,
    n: TypeNames,
    place: PlaceView,
    fns: Seq<int>,
)
    ensures
        no_copies(lad, n, place, overloads(lad, n, place, fns)),
        forall|g: int| #[trigger]
            overloads(lad, n, place, fns).contains(g) ==> fns.contains(g),
        forall|f: int| #[trigger]
            fns.contains(f) ==> has_copy(lad, n, place, overloads(lad, n, place, fns), f),
{
    lemma_collapsed(lad, n, place, fns);
    lemma_overloads_permute(lad, n, place, fns);
    let kept = collapsed(lad, n, place, fns);
    let keys = overload_sort_keys(lad, n, place, kept);
    let positions = sorted_positions(keys);
    let r = overloads(lad, n, place, fns);
    law_sorted_positions(keys);
    assert forall|p: int, q: int| 0 <= p < q < r.len() implies overload_key(
        lad,
        n,
        place,
        #[trigger] r[p],
    ) != overload_key(lad, n, place, #[trigger] r[q]) by {
        assert(positions.contains(positions[p]));
        assert(positions.contains(positions[q]));
        let a = positions[p];
        let b = positions[q];
        assert(r[p] == kept[a] && r[q] == kept[b]);
        if a < b {
            assert(overload_key(lad, n, place, kept[a]) != overload_key(lad, n, place, kept[b]));
        } else {
            assert(overload_key(lad, n, place, kept[b]) != overload_key(lad, n, place, kept[a]));
        }
    }
    assert forall|f: int| #[trigger] fns.contains(f) implies has_copy(lad, n, place, r, f) by {
        assert(has_copy(lad, n, place, kept, f));
        let p = choose|p: int|
            0 <= p < kept.len() && overload_key(lad, n, place, #[trigger] kept[p])
                == overload_key(lad, n, place, f);
        assert(kept.contains(kept[p]));
        assert(r.contains(kept[p]));
        let q = choose|q: int| 0 <= q < r.len() && r[q] == kept[p];
        assert(overload_key(lad, n, place, r[q]) == overload_key(lad, n, place, f));
    }
}

/// Sorting overloads loses none and adds none.
proof fn lemma_overloads_permute(lad: LadFile, n: TypeNames, place: PlaceView, fns: Seq<int>)
    ensures
        overloads(lad, n, place, fns).len() == collapsed(lad, n, place, fns).len(),
        forall|g: int| #[trigger]
            overloads(lad, n, place, fns).contains(g) <==> collapsed(lad, n, place, fns).contains(
                g,
            ),
{
    let kept = collapsed(lad, n, place, fns);
    lemma_sorted_contains(kept, overload_sort_keys(lad, n, place, kept));
}

/// The copy that is kept is the best-documented one, and the first of those:
/// every copy that was there tells the reader less, or as much and comes no
/// earlier.
pub proof fn law_best_documented_copy_is_kept(
    lad: LadFile,
    n: TypeNames,
    place: PlaceView,
    fns: Seq<int>,
    g: int,
    f: int,
)
    requires
        forall|a: int, b: int| 0 <= a < b < fns.len() ==> #[trigger] fns[a] < #[trigger] fns[b],
        overloads(lad, n, place, fns).contains(g),
        fns.contains(f),
        overload_key(lad, n, place, g) == overload_key(lad, n, place, f),
    ensures
        documentation_score(lad.functions@[g]) > documentation_score(lad.functions@[f]) || (
        documentation_score(lad.functions@[g]) == documentation_score(lad.functions@[f]) && g
            <= f),
{
    lemma_collapsed_best(lad, n, place, fns);
    lemma_overloads_permute(lad, n, place, fns);
    assert(collapsed(lad, n, place, fns).contains(g));
}

/// Functions of one identity go by the same name, and if one of them is
/// generic, so is the other: a generic function and one that is not are no
/// copies of each other, however alike their other types are written.
pub proof fn law_identity_tells_generic(
    lad: LadFile,
    n: TypeNames,
    place: PlaceView,
    f: LadFunction,
    g: LadFunction,
)
    requires
        signature_text(lad, n, place, f) == signature_text(lad, n, place, g),
    ensures
        sanitized(f.identifier@) == sanitized(g.identifier@),
        treatment_in(lad, n, place, f) is Some <==> treatment_in(lad, n, place, g) is Some,
{
    reveal_strlit("<T>");
    reveal_strlit("");
    reveal_strlit("(");
    let a = sanitized(f.identifier@);
    let b = sanitized(g.identifier@);
    let x = signature_text(lad, n, place, f);
    law_sanitized_is_identifier(f.identifier@);
    law_sanitized_is_identifier(g.identifier@);
    assert(!identifier_char('<') && !identifier_char('('));
    assert(x[a.len() as int] == '<' || x[a.len() as int] == '(');
    assert(x[b.len() as int] == '<' || x[b.len() as int] == '(');
    if a.len() < b.len() {
        assert(x[a.len() as int] == b[a.len() as int]);
    }
    if b.len() < a.len() {
        assert(x[b.len() as int] == a[b.len() as int]);
    }
    assert(x.take(a.len() as int) =~= a);
    assert(x.take(b.len() as int) =~= b);
}

/// Overloads come in ascending order of what they are sorted by.
pub proof fn law_overloads_ascend(lad: LadFile, n: TypeNames, place: PlaceView, fns: Seq<int>)
    ensures
        forall|p: int, q: int|
            0 <= p < q < overloads(lad, n, place, fns).len() ==> key_le(
                #[trigger] overload_sort_keys(lad, n, place, overloads(lad, n, place, fns))[p],
                #[trigger] overload_sort_keys(lad, n, place, overloads(lad, n, place, fns))[q],
            ),
{
    let kept = collapsed(lad, n, place, fns);
    let keys = overload_sort_keys(lad, n, place, kept);
    let positions = sorted_positions(keys);
    let r = overloads(lad, n, place, fns);
    let sorted = overload_sort_keys(lad, n, place, r);
    law_sorted_positions(keys);
    assert forall|p: int, q: int| 0 <= p < q < r.len() implies key_le(
        #[trigger] sorted[p],
        #[trigger] sorted[q],
    ) by {
        assert(positions.contains(positions[p]));
        assert(positions.contains(positions[q]));
        assert(precedes(keys, positions[p], positions[q]));
        assert(sorted[p] == keys[positions[p]]);
        assert(sorted[q] == keys[positions[q]]);
        lemma_text_le_reflexive(keys[positions[p]].1);
    }
}

/// Without copies there is nothing to collapse.
proof fn lemma_collapsed_without_copies(
    lad: LadFile,
    n: TypeNames,
    place: PlaceView,
    fns: Seq<int>,
)
    requires
        no_copies(lad, n, place, fns),
    ensures
        collapsed(lad, n, place, fns) == fns,
    decreases fns.len(),
{
    if fns.len() > 0 {
        let front = fns.drop_last();
        assert forall|p: int, q: int| 0 <= p < q < front.len() implies overload_key(
            lad,
            n,
            place,
            #[trigger] front[p],
        ) != overload_key(lad, n, place, #[trigger] front[q]) by {
            assert(overload_key(lad, n, place, fns[p]) != overload_key(lad, n, place, fns[q]));
        }
        lemma_collapsed_without_copies(lad, n, place, front);
        assert(!has_copy(lad, n, place, front, fns.last())) by {
            assert forall|p: int| 0 <= p < front.len() implies overload_key(
                lad,
                n,
                place,
                #[trigger] front[p],
            ) != overload_key(lad, n, place, fns.last()) by {
                assert(overload_key(lad, n, place, fns[p]) != overload_key(
                    lad,
                    n,
                    place,
                    fns[fns.len() - 1],
                ));
            }
        }
        assert(front.push(fns.last()) =~= fns);
    } else {
        assert(fns =~= Seq::<int>::empty());
    }
}

/// Collapsing and sorting overloads a second time changes nothing.
pub proof fn law_overloads_idempotent(lad: LadFile, n: TypeNames, place: PlaceView, fns: Seq<int>)
    ensures
        overloads(lad, n, place, overloads(lad, n, place, fns)) == overloads(lad, n, place, fns),
{
    let r = overloads(lad, n, place, fns);
    law_one_member_per_signature(lad, n, place, fns);
    lemma_collapsed_without_copies(lad, n, place, r);
    law_overloads_ascend(lad, n, place, fns);
    let keys = overload_sort_keys(lad, n, place, r);
    let order = Seq::new(r.len(), |i: int| i);
    assert forall|y: int| #[trigger] order.contains(y) <==> 0 <= y < keys.len() by {
        if 0 <= y < keys.len() {
            assert(order[y] == y);
        }
    }
    assert forall|a: int, b: int| 0 <= a < b < order.len() implies #[trigger] precedes(
        keys,
        order[a],
        order[b],
    ) by {
        assert(key_le(keys[a], keys[b]));
    }
    law_sorted_positions_unique(keys, order);
    assert(at_positions(r, order) =~= r);
}

impl<'a> Converter<'a> {
    /// The type of the receiver, if there is one, and the types of the given
    /// arguments, separated by commas.
    fn type_list(
        &self,
        owner: Option<&str>,
        args: &[LadArgument],
        generic: &Option<(usize, String)>,
    ) -> (r: String)
        requires
            self.wf(),
        ensures
            r@ == joined(
                (match owner {
                    Some(name) => seq![name@],
                    None => Seq::empty(),
                }) + param_types(*self.lad, self@.types, args@, treatment(*generic)),
                ", "@,
            ),
    {
        let ghost all = param_types(*self.lad, self@.types, args@, treatment(*generic));
        let mut parts: Vec<String> = Vec::new();
        if let Some(name) = owner {
            parts.push(name.to_owned());
        }
        let ghost first = texts(parts@);
        assert(first =~= match owner {
            Some(name) => seq![name@],
            None => Seq::empty(),
        });
        let mut i: usize = 0;
        assert(first + all.take(0) =~= first);
        while i < args.len()
            invariant
                i <= args@.len(),
                self.wf(),
                all == param_types(*self.lad, self@.types, args@, treatment(*generic)),
                texts(parts@) == first + all.take(i as int),
            decreases args@.len() - i,
        {
            let part = self.param_type_text(args, generic, i);
            proof {
                lemma_texts_push(parts@, part);
                lemma_take_push(all, i as int);
                assert((first + all.take(i as int)).push(part@) =~= first + all.take(i + 1));
            }
            parts.push(part);
            i += 1;
        }
        assert(all.take(i as int) =~= all);
        join(&parts, ", ")
    }

    /// The arguments to list for a function in its place, whether it has a
    /// receiver there, and its phantom-generic treatment.
    pub fn placed<'f>(&self, place: &Place, func: &'f LadFunction) -> (r: (
        &'f [LadArgument],
        bool,
        Option<(usize, String)>,
    ))
        requires
            self.wf(),
        ensures
            r.0@ == listed_args(*self.lad, self@.types, place@, *func),
            r.1 == called_on_receiver(*self.lad, self@.types, place@, *func),
            treatment(r.2) == treatment_in(*self.lad, self@.types, place@, *func),
    {
        let (args, has_self) = match place.owner {
            Some(owner) => self.split_receiver(func, owner, place.is_base),
            None => (script_args(func), false),
        };
        let generic = self.genericize(args, &func.return_type.kind);
        (args, has_self, generic)
    }

    /// Identity of a function as it will be *rendered*: name plus argument and
    /// return types. Argument names and documentation are excluded on purpose —
    /// they are exactly what differs between the redundant copies.
    pub fn signature_key(&self, place: &Place, func: &LadFunction) -> (r: String)
        requires
            self.wf(),
        ensures
            r@ == signature_text(*self.lad, self@.types, place@, *func),
    {
        let (args, has_self, generic) = self.placed(place, func);
        let mut out = sanitize(func.identifier.as_str());
        out.append(
            if generic.is_some() {
                "<T>"
            } else {
                ""
            },
        );
        out.append("(");
        let owner = if has_self {
            place.owner
        } else {
            None
        };
        out.append(self.type_list(owner, args, &generic).as_str());
        out.append(") -> ");
        out.append(self.kind_g(&func.return_type.kind, generic.is_some()).as_str());
        out
    }

    /// Collapse overloads that render to the same signature.
    ///
    /// BMS registers some functions more than once — operator impls in
    /// particular arrive both with argument names and without. `luau-lsp`
    /// merges duplicate members into an overload set, so extra copies would not
    /// be *wrong*, just repeated: they inflate a file that already strains
    /// luau's inference budgets and make "no overload matched" diagnostics list
    /// the same candidate several times. Genuinely distinct overloads
    /// (different argument or return *types*) are all kept.
    pub fn dedupe_overloads(&self, place: &Place, fns: &Vec<usize>) -> (r: Vec<usize>)
        requires
            self.wf(),
            forall|k: int| 0 <= k < fns@.len() ==> (#[trigger] fns@[k]) < self.lad.functions@.len(),
        ensures
            ints(r@) == overloads(*self.lad, self@.types, place@, ints(fns@)),
            forall|k: int| 0 <= k < r@.len() ==> (#[trigger] r@[k]) < self.lad.functions@.len(),
    {
        let kept = self.collapse(place, fns);
        let ghost all = overload_sort_keys(*self.lad, self@.types, place@, ints(kept@));
        let mut keys: Vec<(String, String)> = Vec::new();
        let mut i: usize = 0;
        assert(key_texts(keys@) =~= all.take(0));
        while i < kept.len()
            invariant
                i <= kept@.len(),
                self.wf(),
                forall|k: int|
                    0 <= k < kept@.len() ==> (#[trigger] kept@[k]) < self.lad.functions@.len(),
                all == overload_sort_keys(*self.lad, self@.types, place@, ints(kept@)),
                key_texts(keys@) == all.take(i as int),
            decreases kept@.len() - i,
        {
            let func = &self.lad.functions[kept[i]];
            let minor = if place.is_base {
                String::new()
            } else {
                self.signature_key(place, func)
            };
            let key = (func.identifier.clone(), minor);
            proof {
                lemma_key_texts_push(keys@, key);
                lemma_take_push(all, i as int);
                assert(ints(kept@)[i as int] == kept@[i as int] as int);
                assert(key.1@ =~= all[i as int].1);
            }
            keys.push(key);
            i += 1;
        }
        assert(all.take(i as int) =~= all);
        assert(all.len() == key_texts(keys@).len());
        let r = sorted_by_keys(&kept, &keys);
        proof {
            lemma_sorted_contains(ints(kept@), all);
            assert forall|k: int| 0 <= k < r@.len() implies (#[trigger] r@[k])
                < self.lad.functions@.len() by {
                assert(ints(r@).contains(ints(r@)[k]));
                let p = choose|p: int| 0 <= p < kept@.len() && ints(kept@)[p] == r@[k];
                assert(kept@[p] == r@[k]);
            }
        }
        r
    }

    /// Collapses copies, in the order in which each first appears.
    fn collapse(&self, place: &Place, fns: &Vec<usize>) -> (r: Vec<usize>)
        requires
            self.wf(),
            forall|k: int| 0 <= k < fns@.len() ==> (#[trigger] fns@[k]) < self.lad.functions@.len(),
        ensures
            ints(r@) == collapsed(*self.lad, self@.types, place@, ints(fns@)),
            forall|k: int| 0 <= k < r@.len() ==> (#[trigger] r@[k]) < self.lad.functions@.len(),
    {
        let ghost all = ints(fns@);
        let mut kept: Vec<usize> = Vec::new();
        let mut keys: Vec<String> = Vec::new();
        let mut i: usize = 0;
        assert(ints(kept@) =~= collapsed(*self.lad, self@.types, place@, all.take(0)));
        while i < fns.len()
            invariant
                i <= fns@.len(),
                self.wf(),
                forall|k: int|
                    0 <= k < fns@.len() ==> (#[trigger] fns@[k]) < self.lad.functions@.len(),
                all == ints(fns@),
                ints(kept@) == collapsed(*self.lad, self@.types, place@, all.take(i as int)),
                forall|k: int|
                    0 <= k < kept@.len() ==> (#[trigger] kept@[k]) < self.lad.functions@.len(),
                keys@.len() == kept@.len(),
                forall|k: int|
                    0 <= k < keys@.len() ==> (#[trigger] keys@[k])@
                        == overload_key(*self.lad, self@.types, place@, kept@[k] as int),
            decreases fns@.len() - i,
        {
            let f: usize = fns[i];
            let ghost front = ints(kept@);
            proof {
                assert(all.take(i + 1).drop_last() =~= all.take(i as int));
                assert(all.take(i + 1).last() == f as int);
                lemma_collapsed(*self.lad, self@.types, place@, all.take(i as int));
            }
            let func = &self.lad.functions[f];
            let key = self.signature_key(place, func);
            let mut found: Option<usize> = None;
            let mut p: usize = 0;
            while p < keys.len()
                invariant
                    p <= keys@.len(),
                    keys@.len() == kept@.len(),
                    forall|k: int|
                        0 <= k < keys@.len() ==> (#[trigger] keys@[k])@
                            == overload_key(*self.lad, self@.types, place@, kept@[k] as int),
                    key@ == overload_key(*self.lad, self@.types, place@, f as int),
                    found is None ==> forall|k: int|
                        0 <= k < p ==> overload_key(
                            *self.lad,
                            self@.types,
                            place@,
                            (#[trigger] kept@[k]) as int,
                        ) != overload_key(*self.lad, self@.types, place@, f as int),
                    found matches Some(at) ==> at < keys@.len() && overload_key(
                        *self.lad,
                        self@.types,
                        place@,
                        kept@[at as int] as int,
                    ) == overload_key(*self.lad, self@.types, place@, f as int),
                decreases keys@.len() - p,
            {
                assert(keys@[p as int]@ == overload_key(
                    *self.lad,
                    self@.types,
                    place@,
                    kept@[p as int] as int,
                ));
                if keys[p] == key {
                    found = Some(p);
                }
                p += 1;
            }
            match found {
                Some(at) => {
                    assert(front[at as int] == kept@[at as int] as int);
                    assert(has_copy(*self.lad, self@.types, place@, front, f as int));
                    let ghost improved = front.map_values(
                        |g: int| better_copy(*self.lad, self@.types, place@, g, f as int),
                    );
                    assert forall|k: int| 0 <= k < front.len() && k != at implies improved[k]
                        == front[k] by {
                        if k < at {
                            assert(overload_key(*self.lad, self@.types, place@, front[k])
                                != overload_key(*self.lad, self@.types, place@, front[at as int]));
                        } else {
                            assert(overload_key(*self.lad, self@.types, place@, front[at as int])
                                != overload_key(*self.lad, self@.types, place@, front[k]));
                        }
                    }
                    // Keep whichever copy tells the reader more.
                    if doc_score(func) > doc_score(&self.lad.functions[kept[at]]) {
                        kept.set(at, f);
                    }
                    assert(ints(kept@) =~= improved);
                },
                None => {
                    assert(!has_copy(*self.lad, self@.types, place@, front, f as int)) by {
                        assert forall|k: int| 0 <= k < front.len() implies overload_key(
                            *self.lad,
                            self@.types,
                            place@,
                            #[trigger] front[k],
                        ) != overload_key(*self.lad, self@.types, place@, f as int) by {
                            assert(front[k] == kept@[k] as int);
                        }
                    }
                    proof {
                        lemma_ints_push(kept@, f);
                    }
                    kept.push(f);
                    keys.push(key);
                },
            }
            i += 1;
        }
        assert(all.take(i as int) =~= all);
        kept
    }
}

/// How much a candidate copy of an overload tells the reader. Ties keep the
/// first one seen, which is the LAD file's own order.
pub fn doc_score(func: &LadFunction) -> (r: u128)
    ensures
        r == documentation_score(*func),
{
    let args = script_args(func);
    let ghost p = |i: int| args@[i].name is Some;
    let ghost q = |i: int| args@[i].documentation is Some;
    let mut named: usize = 0;
    let mut documented: usize = 0;
    let mut i: usize = 0;
    while i < args.len()
        invariant
            i <= args@.len(),
            p == (|i: int| args@[i].name is Some),
            q == (|i: int| args@[i].documentation is Some),
            named <= i,
            documented <= i,
            named == positions_where(i as nat, p).len(),
            documented == positions_where(i as nat, q).len(),
        decreases args@.len() - i,
    {
        if args[i].name.is_some() {
            named += 1;
        }
        if args[i].documentation.is_some() {
            documented += 1;
        }
        i += 1;
    }
    let own: u128 = if func.documentation.is_some() {
        1
    } else {
        0
    };
    let returned: u128 = if func.return_type.documentation.is_some() {
        1
    } else {
        0
    };
    named as u128 + documented as u128 + own + returned
}

} // verus!
