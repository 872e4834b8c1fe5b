//! Type expressions: how the kinds of a LAD file are written in Luau.

use vstd::prelude::*;

use crate::converter::{Converter, option_int};
use crate::kinds::{primitive, primitive_text, reference_primitive};
use crate::lad::{LadFieldOrVariableKind, LadFile, LadTypeId, ReflectionPrimitiveKind};
use crate::naming::{BRANDS, TypeNames};
use crate::text::{
    chained, distinct, distinct_texts, join, joined, lemma_chained_contains, lemma_chained_take,
    lemma_distinct_contains, lemma_distinct_no_duplicates, lemma_texts_add, option_text, same_text,
    texts,
};

verus! {

/// The first of the first `k` types that has the given id.
pub open spec fn find_first(lad: LadFile, id: Seq<char>, k: nat) -> Option<int>
    decreases k,
{
    if k == 0 {
        None
    } else {
        match find_first(lad, id, (k - 1) as nat) {
            Some(i) => Some(i),
            None => if lad.types@[k - 1].0@ == id {
                Some(k - 1)
            } else {
                None
            },
        }
    }
}

/// The type with the given id.
pub open spec fn type_with_id(lad: LadFile, id: Seq<char>) -> Option<int> {
    find_first(lad, id, lad.types@.len())
}

/// What a type id is written as: a builtin (for primitive-mapped types), the
/// declared class name, or `any` for anything absent from the file.
pub open spec fn type_text(lad: LadFile, n: TypeNames, id: Seq<char>) -> Seq<char> {
    match type_with_id(lad, id) {
        Some(i) => match lad.types@[i].1.metadata.mapped_to_primitive_kind {
            Some(p) => primitive_text(p),
            None => match n.names[i] {
                Some(name) => name,
                None => "any"@,
            },
        },
        None => "any"@,
    }
}

/// What a kind is written as; the reference primitive as the generic `T` if
/// `ref_as_t` is set. A tuple and a union list the alternatives of their
/// members, each once.
pub open spec fn kind_text(
    lad: LadFile,
    n: TypeNames,
    kind: LadFieldOrVariableKind,
    ref_as_t: bool,
) -> Seq<char>
    decreases kind, 0int,
{
    match kind {
        LadFieldOrVariableKind::Ref(id) => type_text(lad, n, id@),
        LadFieldOrVariableKind::Mut(id) => type_text(lad, n, id@),
        LadFieldOrVariableKind::Val(id) => type_text(lad, n, id@),
        LadFieldOrVariableKind::Unknown(id) => type_text(lad, n, id@),
        LadFieldOrVariableKind::Option(inner) => kind_text(lad, n, *inner, ref_as_t) + "?"@,
        LadFieldOrVariableKind::Vec(inner) => "{ "@ + kind_text(lad, n, *inner, ref_as_t) + " }"@,
        LadFieldOrVariableKind::Array(inner, _) => "{ "@ + kind_text(lad, n, *inner, ref_as_t)
            + " }"@,
        LadFieldOrVariableKind::HashSet(inner) => "{ "@ + kind_text(lad, n, *inner, ref_as_t)
            + " }"@,
        LadFieldOrVariableKind::HashMap(key, value) => "{ ["@ + kind_text(lad, n, *key, ref_as_t)
            + "]: "@ + kind_text(lad, n, *value, ref_as_t) + " }"@,
        LadFieldOrVariableKind::InteropResult(inner) => kind_text(lad, n, *inner, ref_as_t),
        LadFieldOrVariableKind::Tuple(items) => {
            if items@.len() == 0 {
                "nil"@
            } else {
                "{ "@ + joined(
                    distinct(chained(alternative_lists(lad, n, items@, ref_as_t))),
                    " | "@,
                ) + " }"@
            }
        },
        LadFieldOrVariableKind::Primitive(p) => if ref_as_t && reference_primitive(kind) {
            "T"@
        } else {
            primitive_text(p)
        },
        LadFieldOrVariableKind::Union(items) => joined(
            distinct(chained(alternative_lists(lad, n, items@, ref_as_t))),
            " | "@,
        ),
    }
}

/// The alternatives that a kind stands for: those of its members for a union,
/// however deeply nested, else the kind itself. A union without members is
/// written as nothing, and as such is an alternative of its own.
pub open spec fn alternatives_of(
    lad: LadFile,
    n: TypeNames,
    kind: LadFieldOrVariableKind,
    ref_as_t: bool,
) -> Seq<Seq<char>>
    decreases kind, 1int,
{
    match kind {
        LadFieldOrVariableKind::Union(items) => if items@.len() > 0 {
            chained(alternative_lists(lad, n, items@, ref_as_t))
        } else {
            seq![Seq::empty()]
        },
        LadFieldOrVariableKind::InteropResult(inner) => alternatives_of(lad, n, *inner, ref_as_t),
        _ => seq![kind_text(lad, n, kind, ref_as_t)],
    }
}

/// The alternatives that each of several kinds stands for.
pub open spec fn alternative_lists(
    lad: LadFile,
    n: TypeNames,
    items: Seq<LadFieldOrVariableKind>,
    ref_as_t: bool,
) -> Seq<Seq<Seq<char>>>
    decreases items, 0int,
{
    Seq::new(
        items.len(),
        |i: int|
            if 0 <= i < items.len() {
                alternatives_of(lad, n, items[i], ref_as_t)
            } else {
                Seq::empty()
            },
    )
}

/// What a tuple or a union is written as covers every alternative of all its
/// members, names nothing else, and names no alternative twice, however the
/// members are nested.
pub proof fn law_alternatives_cover_members(
    lad: LadFile,
    n: TypeNames,
    items: Seq<LadFieldOrVariableKind>,
    ref_as_t: bool,
)
    ensures
        distinct(chained(alternative_lists(lad, n, items, ref_as_t))).no_duplicates(),
        forall|text: Seq<char>| #[trigger]
            distinct(chained(alternative_lists(lad, n, items, ref_as_t))).contains(text)
                <==> exists|i: int|
                0 <= i < items.len() && alternatives_of(
                    lad,
                    n,
                    #[trigger] items[i],
                    ref_as_t,
                ).contains(text),
{
    let lists = alternative_lists(lad, n, items, ref_as_t);
    let all = chained(lists);
    lemma_distinct_no_duplicates(all);
    assert forall|text: Seq<char>| #[trigger] distinct(all).contains(text) <==> exists|i: int|
        0 <= i < items.len() && alternatives_of(lad, n, #[trigger] items[i], ref_as_t).contains(
            text,
        ) by {
        lemma_distinct_contains(all, text);
        lemma_chained_contains(lists, text);
        if all.contains(text) {
            let k = choose|k: int| 0 <= k < lists.len() && (#[trigger] lists[k]).contains(text);
            assert(alternatives_of(lad, n, items[k], ref_as_t).contains(text));
        }
        if exists|i: int|
            0 <= i < items.len() && alternatives_of(
                lad,
                n,
                #[trigger] items[i],
                ref_as_t,
            ).contains(text) {
            let i = choose|i: int|
                0 <= i < items.len() && alternatives_of(
                    lad,
                    n,
                    #[trigger] items[i],
                    ref_as_t,
                ).contains(text);
            assert(lists[i].contains(text));
        }
    }
}

/// What a kind is written as lists exactly its alternatives, each once.
pub proof fn law_kind_lists_alternatives(
    lad: LadFile,
    n: TypeNames,
    kind: LadFieldOrVariableKind,
    ref_as_t: bool,
)
    ensures
        kind_text(lad, n, kind, ref_as_t) == joined(
            distinct(alternatives_of(lad, n, kind, ref_as_t)),
            " | "@,
        ),
    decreases kind,
{
    match kind {
        LadFieldOrVariableKind::Union(items) => {
            if items@.len() == 0 {
                let lists = alternative_lists(lad, n, items@, ref_as_t);
                assert(distinct(chained(lists)) =~= Seq::<Seq<char>>::empty());
                lemma_joined_one(Seq::empty());
            }
        },
        LadFieldOrVariableKind::InteropResult(inner) => {
            law_kind_lists_alternatives(lad, n, *inner, ref_as_t);
        },
        _ => {
            lemma_joined_one(kind_text(lad, n, kind, ref_as_t));
        },
    }
}

/// One alternative is written as it is.
proof fn lemma_joined_one(text: Seq<char>)
    ensures
        joined(distinct(seq![text]), " | "@) == text,
{
    let one = seq![text];
    assert(one.drop_last() =~= Seq::<Seq<char>>::empty());
    assert(distinct(one.drop_last()) =~= Seq::<Seq<char>>::empty());
    assert(distinct(one) =~= one);
}

/// Whether the registration type of a brand has the given id.
pub open spec fn is_registration(lad: LadFile, n: TypeNames, brand: int, id: Seq<char>) -> bool {
    n.regs[brand] matches Some(i) && lad.types@[i].0@ == id
}

/// A brand in a generic signature.
pub open spec fn brand_text(brand: int) -> Seq<char> {
    BRANDS@[brand].1@ + "<T>"@
}

/// If a kind is a registration reference — or a union made up solely of them,
/// however deeply nested — the brands to use in its place.
pub open spec fn brands_of(lad: LadFile, n: TypeNames, kind: LadFieldOrVariableKind) -> Option<
    Seq<Seq<char>>,
>
    decreases kind,
{
    match kind {
        LadFieldOrVariableKind::Ref(id) => branded_id(lad, n, id@),
        LadFieldOrVariableKind::Mut(id) => branded_id(lad, n, id@),
        LadFieldOrVariableKind::Val(id) => branded_id(lad, n, id@),
        LadFieldOrVariableKind::Union(items) => {
            let brands = brand_lists(lad, n, items@);
            if items@.len() > 0 && forall|i: int|
                0 <= i < items@.len() ==> (#[trigger] brands[i]) is Some {
                Some(chained(unwrapped(brands)))
            } else {
                None
            }
        },
        _ => None,
    }
}

/// The branded generic type to use in the place of a kind, which lists its
/// brands, each once.
pub open spec fn branded(lad: LadFile, n: TypeNames, kind: LadFieldOrVariableKind) -> Option<
    Seq<char>,
> {
    match brands_of(lad, n, kind) {
        Some(brands) => Some(joined(distinct(brands), " | "@)),
        None => None,
    }
}

/// The brand of a type id.
pub open spec fn branded_id(lad: LadFile, n: TypeNames, id: Seq<char>) -> Option<Seq<Seq<char>>> {
    if is_registration(lad, n, 0, id) {
        Some(seq![brand_text(0)])
    } else if is_registration(lad, n, 1, id) {
        Some(seq![brand_text(1)])
    } else if is_registration(lad, n, 2, id) {
        Some(seq![brand_text(2)])
    } else {
        None
    }
}

/// The brands of several kinds.
pub open spec fn brand_lists(
    lad: LadFile,
    n: TypeNames,
    items: Seq<LadFieldOrVariableKind>,
) -> Seq<Option<Seq<Seq<char>>>>
    decreases items,
{
    Seq::new(
        items.len(),
        |i: int|
            if 0 <= i < items.len() {
                brands_of(lad, n, items[i])
            } else {
                None
            },
    )
}

/// The lists inside.
pub open spec fn unwrapped(lists: Seq<Option<Seq<Seq<char>>>>) -> Seq<Seq<Seq<char>>> {
    lists.map_values(|list: Option<Seq<Seq<char>>>| list->0)
}

/// The texts that an optional vector of strings holds.
pub open spec fn option_list(list: Option<Vec<String>>) -> Option<Seq<Seq<char>>> {
    match list {
        Some(v) => Some(texts(v@)),
        None => None,
    }
}

/// `{ inner }`.
fn braced(inner: &str) -> (r: String)
    ensures
        r@ == "{ "@ + inner@ + " }"@,
{
    let mut out = "{ ".to_owned();
    out.append(inner);
    out.append(" }");
    out
}

/// The type with the given id.
pub fn find_type(lad: &LadFile, id: &str) -> (r: Option<usize>)
    ensures
        option_int(r) == type_with_id(*lad, id@),
        r matches Some(i) ==> i < lad.types@.len(),
{
    let mut found: Option<usize> = None;
    let mut i: usize = 0;
    while i < lad.types.len()
        invariant
            i <= lad.types@.len(),
            option_int(found) == find_first(*lad, id@, i as nat),
            found matches Some(k) ==> k < lad.types@.len(),
        decreases lad.types@.len() - i,
    {
        if found.is_none() && same_text(lad.types[i].0.0.as_str(), id) {
            found = Some(i);
        }
        i += 1;
    }
    found
}

impl<'a> Converter<'a> {
    /// Resolve a type id to a Luau type name: a builtin (for primitive-mapped
    /// types), the declared class name, or `any` for anything absent from the file.
    pub fn type_id_name(&self, id: &LadTypeId) -> (r: String)
        requires
            self.wf(),
        ensures
            r@ == type_text(*self.lad, self@.types, id@),
    {
        match find_type(self.lad, id.0.as_str()) {
            Some(i) => {
                assert(self@.types.names[i as int] == option_text(self.names@[i as int]));
                match &self.lad.types[i].1.metadata.mapped_to_primitive_kind {
                    Some(p) => primitive(p).to_owned(),
                    None => match &self.names[i] {
                        Some(name) => name.clone(),
                        None => "any".to_owned(),
                    },
                }
            },
            None => "any".to_owned(),
        }
    }

    /// Resolve a LAD type kind to a Luau type expression.
    pub fn kind(&self, kind: &LadFieldOrVariableKind) -> (r: String)
        requires
            self.wf(),
        ensures
            r@ == kind_text(*self.lad, self@.types, *kind, false),
    {
        self.kind_g(kind, false)
    }

    /// [`Self::kind`], rendering `ReflectReference` as the generic `T` instead of
    /// `any` when inside a genericized signature.
    pub fn kind_g(&self, kind: &LadFieldOrVariableKind, ref_as_t: bool) -> (r: String)
        requires
            self.wf(),
        ensures
            r@ == kind_text(*self.lad, self@.types, *kind, ref_as_t),
        decreases kind, 0int,
    {
        match kind {
            LadFieldOrVariableKind::Ref(id)
            | LadFieldOrVariableKind::Mut(id)
            | LadFieldOrVariableKind::Val(id)
            | LadFieldOrVariableKind::Unknown(id) => self.type_id_name(id),
            LadFieldOrVariableKind::Option(inner) => {
                let mut out = self.kind_g(inner, ref_as_t);
                out.append("?");
                out
            },
            LadFieldOrVariableKind::Vec(inner)
            | LadFieldOrVariableKind::Array(inner, _)
            | LadFieldOrVariableKind::HashSet(inner) => {
                braced(self.kind_g(inner, ref_as_t).as_str())
            },
            LadFieldOrVariableKind::HashMap(k, v) => {
                let mut out = "{ [".to_owned();
                out.append(self.kind_g(k, ref_as_t).as_str());
                out.append("]: ");
                out.append(self.kind_g(v, ref_as_t).as_str());
                out.append(" }");
                out
            },
            LadFieldOrVariableKind::InteropResult(inner) => self.kind_g(inner, ref_as_t),
            // Luau has no value-level tuple type, so a tuple approximates to an
            // array. A heterogeneous tuple's element type is then the *union* of
            // its members — taking only the first member's type would state
            // something the value does not guarantee.
            LadFieldOrVariableKind::Tuple(items) => {
                if items.len() == 0 {
                    // The unit type. `nil` is valid in every position; a bare `()`
                    // is only legal as a function return, so avoid it.
                    "nil".to_owned()
                } else {
                    let types = distinct_texts(&self.all_alternatives(items, ref_as_t));
                    braced(join(&types, " | ").as_str())
                }
            },
            LadFieldOrVariableKind::Primitive(p) => {
                match p {
                    ReflectionPrimitiveKind::ReflectReference => {
                        if ref_as_t {
                            "T".to_owned()
                        } else {
                            primitive(p).to_owned()
                        }
                    },
                    _ => primitive(p).to_owned(),
                }
            },
            // Distinct Rust types can share a Luau type (`String` and `&str` are
            // both `string`), which would otherwise render as `string | string`.
            LadFieldOrVariableKind::Union(items) => {
                let types = distinct_texts(&self.all_alternatives(items, ref_as_t));
                join(&types, " | ")
            },
        }
    }

    /// The type expressions that a kind is an alternative of. The alternatives of
    /// a nested union are alternatives of the union around it.
    pub fn alternatives(&self, kind: &LadFieldOrVariableKind, ref_as_t: bool) -> (r: Vec<String>)
        requires
            self.wf(),
        ensures
            texts(r@) == alternatives_of(*self.lad, self@.types, *kind, ref_as_t),
        decreases kind, 1int,
    {
        match kind {
            LadFieldOrVariableKind::Union(items) => {
                if items.len() > 0 {
                    self.all_alternatives(items, ref_as_t)
                } else {
                    let mut out: Vec<String> = Vec::new();
                    out.push(String::new());
                    assert(texts(out@) =~= seq![Seq::<char>::empty()]);
                    out
                }
            },
            LadFieldOrVariableKind::InteropResult(inner) => self.alternatives(inner, ref_as_t),
            _ => {
                let mut out: Vec<String> = Vec::new();
                out.push(self.kind_g(kind, ref_as_t));
                assert(texts(out@) =~= seq![kind_text(*self.lad, self@.types, *kind, ref_as_t)]);
                out
            },
        }
    }

    /// The alternatives of several kinds.
    fn all_alternatives(&self, items: &Vec<LadFieldOrVariableKind>, ref_as_t: bool) -> (r: Vec<
        String,
    >)
        requires
            self.wf(),
        ensures
            texts(r@) == chained(alternative_lists(*self.lad, self@.types, items@, ref_as_t)),
        decreases items, 0int,
    {
        let ghost all = alternative_lists(*self.lad, self@.types, items@, ref_as_t);
        let mut out: Vec<String> = Vec::new();
        let mut i: usize = 0;
        assert(texts(out@) =~= chained(all.take(0)));
        while i < items.len()
            invariant
                i <= items@.len(),
                self.wf(),
                all == alternative_lists(*self.lad, self@.types, items@, ref_as_t),
                texts(out@) == chained(all.take(i as int)),
            decreases items@.len() - i,
        {
            let mut more = self.alternatives(&items[i], ref_as_t);
            proof {
                lemma_chained_take(all, i as int);
                lemma_texts_add(out@, more@);
            }
            out.append(&mut more);
            i += 1;
        }
        assert(all.take(i as int) =~= all);
        out
    }

    /// The brand whose registration type has the given id.
    fn brand_of(&self, id: &LadTypeId) -> (r: Option<Vec<String>>)
        requires
            self.wf(),
        ensures
            option_list(r) == branded_id(*self.lad, self@.types, id@),
    {
        let brands = BRANDS;
        let mut b: usize = 0;
        while b < 3
            invariant
                b <= 3,
                self.wf(),
                brands@ == BRANDS@,
                forall|k: int|
                    0 <= k < b ==> !#[trigger] is_registration(*self.lad, self@.types, k, id@),
            decreases 3 - b,
        {
            assert(self@.types.regs[b as int] == option_int(self.regs@[b as int]));
            if let Some(i) = self.regs[b] {
                if same_text(self.lad.types[i].0.0.as_str(), id.0.as_str()) {
                    assert(is_registration(*self.lad, self@.types, b as int, id@));
                    let mut out = brands[b].1.to_owned();
                    out.append("<T>");
                    assert(b == 0 || b == 1 || b == 2);
                    assert(b > 0 ==> !is_registration(*self.lad, self@.types, 0, id@));
                    assert(b > 1 ==> !is_registration(*self.lad, self@.types, 1, id@));
                    let mut list: Vec<String> = Vec::new();
                    list.push(out);
                    assert(texts(list@) =~= seq![brand_text(b as int)]);
                    return Some(list);
                }
            }
            b += 1;
        }
        assert(!is_registration(*self.lad, self@.types, 0, id@));
        assert(!is_registration(*self.lad, self@.types, 1, id@));
        assert(!is_registration(*self.lad, self@.types, 2, id@));
        None
    }

    /// If `kind` is a registration reference — or a union made up solely of them,
    /// like `construct`'s — the branded generic type to use in its place, e.g.
    /// `Reg<T>` or `TypeReg<T> | Reg<T> | ResReg<T>`.
    pub fn registration_brand(&self, kind: &LadFieldOrVariableKind) -> (r: Option<String>)
        requires
            self.wf(),
        ensures
            option_text(r) == branded(*self.lad, self@.types, *kind),
    {
        match self.brand_list(kind) {
            Some(brands) => Some(join(&distinct_texts(&brands), " | ")),
            None => None,
        }
    }

    /// The brands to use in the place of a kind.
    fn brand_list(&self, kind: &LadFieldOrVariableKind) -> (r: Option<Vec<String>>)
        requires
            self.wf(),
        ensures
            option_list(r) == brands_of(*self.lad, self@.types, *kind),
        decreases kind,
    {
        match kind {
            LadFieldOrVariableKind::Ref(id)
            | LadFieldOrVariableKind::Mut(id)
            | LadFieldOrVariableKind::Val(id) => self.brand_of(id),
            LadFieldOrVariableKind::Union(items) => {
                if items.len() == 0 {
                    None
                } else {
                    self.all_brands(items)
                }
            },
            _ => None,
        }
    }

    /// The brands of several kinds, if all of them have one.
    fn all_brands(&self, items: &Vec<LadFieldOrVariableKind>) -> (r: Option<Vec<String>>)
        requires
            self.wf(),
        ensures
            r is Some <==> forall|i: int|
                0 <= i < items@.len() ==> (#[trigger] brand_lists(
                    *self.lad,
                    self@.types,
                    items@,
                )[i]) is Some,
            r matches Some(list) ==> texts(list@) == chained(
                unwrapped(brand_lists(*self.lad, self@.types, items@)),
            ),
        decreases items,
    {
        let ghost all = brand_lists(*self.lad, self@.types, items@);
        let mut out: Vec<String> = Vec::new();
        let mut i: usize = 0;
        assert(texts(out@) =~= chained(unwrapped(all).take(0)));
        while i < items.len()
            invariant
                i <= items@.len(),
                self.wf(),
                all == brand_lists(*self.lad, self@.types, items@),
                forall|k: int| 0 <= k < i ==> (#[trigger] all[k]) is Some,
                texts(out@) == chained(unwrapped(all).take(i as int)),
            decreases items@.len() - i,
        {
            assert(all[i as int] == brands_of(*self.lad, self@.types, items@[i as int]));
            match self.brand_list(&items[i]) {
                Some(brands) => {
                    let mut more = brands;
                    proof {
                        lemma_chained_take(unwrapped(all), i as int);
                        lemma_texts_add(out@, more@);
                    }
                    out.append(&mut more);
                },
                None => {
                    return None;
                },
            }
            i += 1;
        }
        assert(unwrapped(all).take(i as int) =~= unwrapped(all));
        Some(out)
    }
}

} // verus!
