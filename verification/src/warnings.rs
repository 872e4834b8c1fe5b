//! Warnings: what the output leaves out because no honest name for it exists.

use vstd::prelude::*;

use crate::classes::{class_functions, class_order};
use crate::converter::Converter;
use crate::fields::{field_keys, first_of_key};
use crate::ident::{callable, callable_name, field_key};
use crate::lad::{LadFile, LadFunction, LadNamedField, LadTypeLayout, LadVariant};
use crate::members::{functions_of_type, member_text};
use crate::naming::{
    self, lemma_positions_where, Naming, positions_where, REFLECT_REFERENCE_CLASS, TypeNames,
};
use crate::options::Options;
use crate::order::{at_positions, ints, lemma_ints_push};
use crate::overloads::{Place, PlaceView};
use crate::render::base_functions;
use crate::text::{
    chained, contains_text, lemma_chained_take, lemma_take_push, lemma_texts_add, lemma_texts_push,
    option_text, texts,
};

verus! {

/// Whether an earlier field has the key of the field at position `i`.
pub open spec fn is_taken(fields: Seq<LadNamedField>, i: int) -> bool {
    field_keys(fields).take(i).contains(field_keys(fields)[i])
}

/// The positions of the fields that are left out: those whose key an earlier
/// field has.
pub open spec fn taken_keys(fields: Seq<LadNamedField>) -> Seq<int> {
    positions_where(fields.len(), |i: int| is_taken(fields, i))
}

/// The warning that a field is left out.
pub open spec fn field_warning(owner: Seq<char>, fields: Seq<LadNamedField>, i: int) -> Seq<char> {
    "skipping field `"@ + fields[i].name@ + "` on `"@ + owner + "`: key `"@ + field_keys(fields)[i]
        + "` is already taken"@
}

/// The warnings of all fields that are left out.
pub open spec fn field_warnings(owner: Seq<char>, fields: Seq<LadNamedField>) -> Seq<Seq<char>> {
    taken_keys(fields).map_values(|i: int| field_warning(owner, fields, i))
}

/// Whether the name of a function cannot be used as a binding.
pub open spec fn is_unnameable(func: LadFunction) -> bool {
    callable(func.identifier@) is None
}

/// Of the given functions those that are left out: their names cannot be used
/// as a binding.
pub open spec fn unnameable(lad: LadFile, fns: Seq<int>) -> Seq<int> {
    at_positions(fns, positions_where(fns.len(), |k: int| is_unnameable(lad.functions@[fns[k]])))
}

/// The warning that a member is left out.
pub open spec fn member_warning(owner: Seq<char>, func: LadFunction) -> Seq<char> {
    "skipping `"@ + func.identifier@ + "` on `"@ + owner + "`: name is a reserved Luau keyword"@
}

/// The warnings of all members that are left out.
pub open spec fn member_warnings(lad: LadFile, owner: Seq<char>, fns: Seq<int>) -> Seq<Seq<char>> {
    unnameable(lad, fns).map_values(|j: int| member_warning(owner, lad.functions@[j]))
}

/// The warnings about the fields of a class.
pub open spec fn layout_warnings(lad: LadFile, n: TypeNames, i: int) -> Seq<Seq<char>> {
    match lad.types@[i].1.layout {
        LadTypeLayout::MonoVariant(LadVariant::Struct { name: _, fields }) => field_warnings(
            n.names[i]->0,
            fields@,
        ),
        _ => Seq::empty(),
    }
}

/// The warnings about a class: about the fields of its payload, about its own,
/// and about its functions.
pub open spec fn class_warnings(lad: LadFile, n: Naming, i: int) -> Seq<Seq<char>> {
    (if n.init_aliases[i] is Some {
        layout_warnings(lad, n.types, i)
    } else {
        Seq::empty()
    }) + layout_warnings(lad, n.types, i) + member_warnings(
        lad,
        n.types.names[i]->0,
        class_functions(lad, n.types, i),
    )
}

/// The warnings about the base class.
pub open spec fn base_warnings(lad: LadFile, n: Naming) -> Seq<Seq<char>> {
    match n.reflect_ref {
        Some(reference) => member_warnings(
            lad,
            REFLECT_REFERENCE_CLASS@,
            base_functions(lad, n.types, reference),
        ),
        None => Seq::empty(),
    }
}

/// The warnings about each class, in order of the classes.
pub open spec fn class_warning_lists(lad: LadFile, n: Naming) -> Seq<Seq<Seq<char>>> {
    class_order(n.types).map_values(|i: int| class_warnings(lad, n, i))
}

/// All warnings about a file under the names decided for it.
pub open spec fn file_warnings(lad: LadFile, n: Naming) -> Seq<Seq<char>> {
    base_warnings(lad, n) + chained(class_warning_lists(lad, n))
}

/// Every field is either a member or warned about, and none is both.
pub proof fn law_no_field_is_lost_silently(fields: Seq<LadNamedField>, i: int)
    requires
        0 <= i < fields.len(),
    ensures
        first_of_key(fields).contains(i) <==> !taken_keys(fields).contains(i),
{
    lemma_positions_where(fields.len(), |i: int| is_taken(fields, i));
    lemma_positions_where(
        fields.len(),
        |i: int| !field_keys(fields).take(i).contains(field_keys(fields)[i]),
    );
}

/// Of the functions of a class, or of the base class, a function is either
/// rendered or warned about, and none is both.
pub proof fn law_no_member_is_lost_silently(
    lad: LadFile,
    n: TypeNames,
    place: PlaceView,
    fns: Seq<int>,
    j: int,
)
    requires
        fns.contains(j),
    ensures
        member_text(lad, n, place, lad.functions@[j]).len() == 0 <==> unnameable(
            lad,
            fns,
        ).contains(j),
{
    reveal_strlit("\tfunction ");
    reveal_strlit("\t");
    reveal_strlit("\n");
    let positions = positions_where(fns.len(), |k: int| is_unnameable(lad.functions@[fns[k]]));
    lemma_positions_where(fns.len(), |k: int| is_unnameable(lad.functions@[fns[k]]));
    let k = choose|k: int| 0 <= k < fns.len() && fns[k] == j;
    if is_unnameable(lad.functions@[j]) {
        assert(positions.contains(k));
        let p = choose|p: int| 0 <= p < positions.len() && positions[p] == k;
        assert(unnameable(lad, fns)[p] == j);
    }
    if unnameable(lad, fns).contains(j) {
        let p = choose|p: int| 0 <= p < positions.len() && unnameable(lad, fns)[p] == j;
        assert(positions.contains(positions[p]));
    }
}

/// The positions of the fields that are left out because an earlier field has
/// their key.
pub fn skipped_fields(fields: &Vec<LadNamedField>) -> (r: Vec<usize>)
    ensures
        ints(r@) == taken_keys(fields@),
        forall|k: int| 0 <= k < r@.len() ==> (#[trigger] r@[k]) < fields@.len(),
{
    let ghost keys = field_keys(fields@);
    let ghost p = |i: int| is_taken(fields@, i);
    let mut seen: Vec<String> = Vec::new();
    let mut out: Vec<usize> = Vec::new();
    let mut i: usize = 0;
    assert(texts(seen@) =~= keys.take(0));
    assert(ints(out@) =~= positions_where(0, p));
    while i < fields.len()
        invariant
            i <= fields@.len(),
            keys == field_keys(fields@),
            p == (|i: int| is_taken(fields@, i)),
            texts(seen@) == keys.take(i as int),
            ints(out@) == positions_where(i as nat, p),
            forall|k: int| 0 <= k < out@.len() ==> (#[trigger] out@[k]) < fields@.len(),
        decreases fields@.len() - i,
    {
        let key = field_key(fields[i].name.as_str());
        if contains_text(&seen, key.as_str()) {
            proof {
                lemma_ints_push(out@, i);
            }
            out.push(i);
        }
        proof {
            lemma_texts_push(seen@, key);
            lemma_take_push(keys, i as int);
        }
        seen.push(key);
        i += 1;
    }
    out
}

/// The warnings of the fields that are left out.
fn warn_of_fields(owner: &str, fields: &Vec<LadNamedField>) -> (r: Vec<String>)
    ensures
        texts(r@) == field_warnings(owner@, fields@),
{
    let skipped = skipped_fields(fields);
    let ghost all = field_warnings(owner@, fields@);
    let mut out: Vec<String> = Vec::new();
    let mut k: usize = 0;
    assert(texts(out@) =~= all.take(0));
    assert(all.len() == ints(skipped@).len());
    while k < skipped.len()
        invariant
            k <= skipped@.len(),
            ints(skipped@) == taken_keys(fields@),
            forall|k: int| 0 <= k < skipped@.len() ==> (#[trigger] skipped@[k]) < fields@.len(),
            all == field_warnings(owner@, fields@),
            all.len() == skipped@.len(),
            texts(out@) == all.take(k as int),
        decreases skipped@.len() - k,
    {
        let name = fields[skipped[k]].name.as_str();
        let mut line = "skipping field `".to_owned();
        line.append(name);
        line.append("` on `");
        line.append(owner);
        line.append("`: key `");
        line.append(field_key(name).as_str());
        line.append("` is already taken");
        proof {
            assert(ints(skipped@)[k as int] == skipped@[k as int] as int);
            lemma_texts_push(out@, line);
            lemma_take_push(all, k as int);
        }
        out.push(line);
        k += 1;
    }
    assert(all.take(k as int) =~= all);
    out
}

impl<'a> Converter<'a> {
    /// Of the given functions those that are left out because their names cannot
    /// be used as a binding.
    pub fn skipped_members(&self, fns: &Vec<usize>) -> (r: Vec<usize>)
        requires
            forall|k: int| 0 <= k < fns@.len() ==> (#[trigger] fns@[k]) < self.lad.functions@.len(),
        ensures
            ints(r@) == unnameable(*self.lad, ints(fns@)),
            forall|k: int| 0 <= k < r@.len() ==> (#[trigger] r@[k]) < self.lad.functions@.len(),
    {
        let ghost all = ints(fns@);
        let ghost p = |k: int| is_unnameable(self.lad.functions@[all[k]]);
        let mut out: Vec<usize> = Vec::new();
        let mut k: usize = 0;
        assert(ints(out@) =~= at_positions(all, positions_where(0, p)));
        while k < fns.len()
            invariant
                k <= fns@.len(),
                forall|k: int|
                    0 <= k < fns@.len() ==> (#[trigger] fns@[k]) < self.lad.functions@.len(),
                all == ints(fns@),
                p == (|k: int| is_unnameable(self.lad.functions@[all[k]])),
                ints(out@) == at_positions(all, positions_where(k as nat, p)),
                forall|k: int|
                    0 <= k < out@.len() ==> (#[trigger] out@[k]) < self.lad.functions@.len(),
            decreases fns@.len() - k,
        {
            assert(all[k as int] == fns@[k as int] as int);
            if callable_name(self.lad.functions[fns[k]].identifier.as_str()).is_none() {
                proof {
                    lemma_ints_push(out@, fns@[k as int]);
                    let before = positions_where(k as nat, p);
                    assert(at_positions(all, before.push(k as int)) =~= at_positions(
                        all,
                        before,
                    ).push(all[k as int]));
                }
                out.push(fns[k]);
            }
            k += 1;
        }
        out
    }

    /// The warnings of the given functions that are left out.
    fn warn_of_members(&self, owner: &str, fns: &Vec<usize>) -> (r: Vec<String>)
        requires
            forall|k: int| 0 <= k < fns@.len() ==> (#[trigger] fns@[k]) < self.lad.functions@.len(),
        ensures
            texts(r@) == member_warnings(*self.lad, owner@, ints(fns@)),
    {
        let skipped = self.skipped_members(fns);
        let ghost all = member_warnings(*self.lad, owner@, ints(fns@));
        let mut out: Vec<String> = Vec::new();
        let mut k: usize = 0;
        assert(texts(out@) =~= all.take(0));
        assert(all.len() == ints(skipped@).len());
        while k < skipped.len()
            invariant
                k <= skipped@.len(),
                ints(skipped@) == unnameable(*self.lad, ints(fns@)),
                forall|k: int|
                    0 <= k < skipped@.len() ==> (#[trigger] skipped@[k])
                        < self.lad.functions@.len(),
                all == member_warnings(*self.lad, owner@, ints(fns@)),
                all.len() == skipped@.len(),
                texts(out@) == all.take(k as int),
            decreases skipped@.len() - k,
        {
            let mut line = "skipping `".to_owned();
            line.append(self.lad.functions[skipped[k]].identifier.as_str());
            line.append("` on `");
            line.append(owner);
            line.append("`: name is a reserved Luau keyword");
            proof {
                assert(ints(skipped@)[k as int] == skipped@[k as int] as int);
                lemma_texts_push(out@, line);
                lemma_take_push(all, k as int);
            }
            out.push(line);
            k += 1;
        }
        assert(all.take(k as int) =~= all);
        out
    }

    fn warn_of_layout(&self, i: usize, name: &str) -> (r: Vec<String>)
        requires
            self.wf(),
            i < self.lad.types@.len(),
            self@.types.names[i as int] == Some(name@),
        ensures
            texts(r@) == layout_warnings(*self.lad, self@.types, i as int),
    {
        match &self.lad.types[i].1.layout {
            LadTypeLayout::MonoVariant(LadVariant::Struct { fields, .. }) => warn_of_fields(
                name,
                fields,
            ),
            _ => {
                let out: Vec<String> = Vec::new();
                assert(texts(out@) =~= Seq::<Seq<char>>::empty());
                out
            },
        }
    }

    fn warn_of_class(&self, i: usize, name: &str) -> (r: Vec<String>)
        requires
            self.wf(),
            i < self.lad.types@.len(),
            self@.types.names[i as int] == Some(name@),
        ensures
            texts(r@) == class_warnings(*self.lad, self@, i as int),
    {
        assert(self@.init_aliases[i as int] == option_text(self.init_aliases@[i as int]));
        let mut out: Vec<String> = Vec::new();
        assert(texts(out@) =~= Seq::<Seq<char>>::empty());
        if self.init_aliases[i].is_some() {
            out = self.warn_of_layout(i, name);
        }
        let mut own = self.warn_of_layout(i, name);
        proof {
            lemma_texts_add(out@, own@);
        }
        out.append(&mut own);
        let place = Place { owner: Some(name), is_base: false };
        assert(place@.owner == self@.types.names[i as int]);
        let fns = self.dedupe_overloads(
            &place,
            &functions_of_type(self.lad, self.lad.types[i].0.0.as_str()),
        );
        let mut members = self.warn_of_members(name, &fns);
        proof {
            lemma_texts_add(out@, members@);
        }
        out.append(&mut members);
        out
    }

    fn warn_of_base(&self) -> (r: Vec<String>)
        requires
            self.wf(),
        ensures
            texts(r@) == base_warnings(*self.lad, self@),
    {
        match self.reflect_ref {
            Some(reference) => {
                let place = Place { owner: Some(REFLECT_REFERENCE_CLASS), is_base: true };
                let fns = self.dedupe_overloads(
                    &place,
                    &functions_of_type(self.lad, self.lad.types[reference].0.0.as_str()),
                );
                self.warn_of_members(REFLECT_REFERENCE_CLASS, &fns)
            },
            None => {
                let out: Vec<String> = Vec::new();
                assert(texts(out@) =~= Seq::<Seq<char>>::empty());
                out
            },
        }
    }

    /// What the output leaves out: fields whose key is already taken, and members
    /// whose name is a keyword.
    pub fn warnings(&self) -> (r: Vec<String>)
        requires
            self.wf(),
        ensures
            texts(r@) == file_warnings(*self.lad, self@),
    {
        let order = self.classes_by_name();
        let ghost all = class_warning_lists(*self.lad, self@);
        let ghost base = base_warnings(*self.lad, self@);
        let mut out = self.warn_of_base();
        let mut k: usize = 0;
        assert(base + chained(all.take(0)) =~= base);
        assert(all.len() == ints(order@).len());
        while k < order.len()
            invariant
                k <= order@.len(),
                self.wf(),
                ints(order@) == class_order(self@.types),
                forall|k: int|
                    0 <= k < order@.len() ==> (#[trigger] order@[k]) < self.lad.types@.len()
                        && self.names@[order@[k] as int] is Some,
                all == class_warning_lists(*self.lad, self@),
                all.len() == order@.len(),
                texts(out@) == base + chained(all.take(k as int)),
            decreases order@.len() - k,
        {
            proof {
                lemma_chained_take(all, k as int);
                assert(ints(order@)[k as int] == order@[k as int] as int);
                assert(self@.types.names[order@[k as int] as int] == option_text(
                    self.names@[order@[k as int] as int],
                ));
            }
            if let Some(name) = &self.names[order[k]] {
                let mut more = self.warn_of_class(order[k], name.as_str());
                proof {
                    lemma_texts_add(out@, more@);
                    assert(base + chained(all.take(k as int)) + texts(more@) =~= base + (chained(
                        all.take(k as int),
                    ) + texts(more@)));
                }
                out.append(&mut more);
            }
            k += 1;
        }
        assert(all.take(k as int) =~= all);
        out
    }
}

/// What the definitions of a file leave out.
pub fn lad_warnings(lad: &LadFile, options: &Options) -> (r: Vec<String>)
    ensures
        texts(r@) == file_warnings(*lad, naming::naming(*lad, *options)),
{
    Converter::new(lad, options).warnings()
}

} // verus!
