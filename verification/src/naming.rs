//! The names that the output declares: which type gets which class name, and
//! which further aliases are exported.

use vstd::prelude::*;

use crate::ident::sanitized;
use crate::kinds::{holds_string, reference_primitive};
use crate::lad::{
    LadFile, LadFunction, LadFunctionNamespace, LadTypeLayout, LadVariant, ReflectionPrimitiveKind,
};
use crate::options::Options;
use crate::order::{at_positions, lemma_sorted_contains, plain_keys, sorted_positions};
use crate::text::{contains_text, lemma_texts_push, option_text, option_texts, text_le, texts};

verus! {

/// The registration brands: which registration class each one wraps, the alias
/// name it is declared under, and the phantom field carrying `T`.
pub const BRANDS: [(&'static str, &'static str, &'static str); 3] = [
    ("ScriptComponentRegistration", "Reg", "__component"),
    ("ScriptResourceRegistration", "ResReg", "__resource"),
    ("ScriptTypeRegistration", "TypeReg", "__type"),
];

/// The name the shared reference-proxy base class is declared under. Reserved
/// in the class namespace whenever the LAD file records the type.
pub const REFLECT_REFERENCE_CLASS: &'static str = "ReflectReference";

/// What types are written as. Types are meant by their positions in the file.
pub struct TypeNames {
    /// The class name of each type; `None` for those that a primitive stands
    /// for.
    pub names: Seq<Option<Seq<char>>>,
    /// The registration types, in the order of the brands.
    pub regs: Seq<Option<int>>,
}

/// What is decided about a LAD file before anything is rendered.
pub struct Naming {
    /// What types are written as.
    pub types: TypeNames,
    /// The reference proxy type.
    pub reflect_ref: Option<int>,
    /// The name of each enum's exported variant-name union.
    pub variant_aliases: Seq<Option<Seq<char>>>,
    /// The name of each type's exported `construct` payload alias.
    pub init_aliases: Seq<Option<Seq<char>>>,
    /// Whether the file records the function behind `variant_name`.
    pub has_variant_name: bool,
}

/// The positions below `n` that satisfy `p`, in ascending order.
pub open spec fn positions_where(n: nat, p: spec_fn(int) -> bool) -> Seq<int>
    decreases n,
{
    if n == 0 {
        Seq::empty()
    } else {
        let front = positions_where((n - 1) as nat, p);
        if p(n - 1) {
            front.push(n - 1)
        } else {
            front
        }
    }
}

/// Whether a type gets a class of its own, rather than a primitive standing
/// for it.
pub open spec fn declared(lad: LadFile, i: int) -> bool {
    lad.types@[i].1.metadata.mapped_to_primitive_kind is None
}

/// The types that get a class of their own, in the file's order.
pub open spec fn declared_types(lad: LadFile) -> Seq<int> {
    positions_where(lad.types@.len(), |i: int| declared(lad, i))
}

/// The identifiers of the given types.
pub open spec fn identifiers(lad: LadFile, types: Seq<int>) -> Seq<Seq<char>> {
    types.map_values(|i: int| lad.types@[i].1.identifier@)
}

/// The order in which types are named: by identifier.
pub open spec fn naming_order(lad: LadFile) -> Seq<int> {
    at_positions(
        declared_types(lad),
        sorted_positions(plain_keys(identifiers(lad, declared_types(lad)))),
    )
}

/// The name that a type asks for.
pub open spec fn wanted_class_name(identifier: Seq<char>) -> Seq<char> {
    if sanitized(identifier).len() == 0 {
        "Unknown"@
    } else {
        sanitized(identifier)
    }
}

/// `name` with `k` underscores behind it.
pub open spec fn suffixed(name: Seq<char>, k: nat) -> Seq<char> {
    name + Seq::new(k, |i: int| '_')
}

/// Whether `k` is the least number of underscores that make `name` differ from
/// everything in `used`.
pub open spec fn is_least_suffix(name: Seq<char>, used: Seq<Seq<char>>, k: nat) -> bool {
    &&& !used.contains(suffixed(name, k))
    &&& forall|j: nat| j < k ==> used.contains(#[trigger] suffixed(name, j))
}

/// `name` with the fewest underscores behind it that make it differ from
/// everything in `used`.
pub open spec fn fresh(name: Seq<char>, used: Seq<Seq<char>>) -> Seq<char> {
    suffixed(name, choose|k: nat| is_least_suffix(name, used, k))
}

/// The names that are there, in order.
pub open spec fn present(names: Seq<Option<Seq<char>>>) -> Seq<Seq<char>>
    decreases names.len(),
{
    if names.len() == 0 {
        Seq::empty()
    } else {
        match names.last() {
            Some(name) => present(names.drop_last()).push(name),
            None => present(names.drop_last()),
        }
    }
}

/// Names for those that ask for one, handed out in order: each gets the name
/// that it wants, made to differ from `used` and from the names before it.
pub open spec fn allocated(wanted: Seq<Option<Seq<char>>>, used: Seq<Seq<char>>) -> Seq<
    Option<Seq<char>>,
>
    decreases wanted.len(),
{
    if wanted.len() == 0 {
        Seq::empty()
    } else {
        let front = allocated(wanted.drop_last(), used);
        match wanted.last() {
            Some(name) => front.push(Some(fresh(name, used + present(front)))),
            None => front.push(None),
        }
    }
}

/// What was handed out in `order`, by the position of the type; `None` for
/// types that are not in `order`.
pub open spec fn by_type(
    count: nat,
    order: Seq<int>,
    names: Seq<Option<Seq<char>>>,
) -> Seq<Option<Seq<char>>> {
    Seq::new(
        count,
        |i: int|
            if order.contains(i) {
                names[order.index_of(i)]
            } else {
                None
            },
    )
}

/// The names that are taken before any type is named: the brand aliases, and
/// the base class where there is one.
pub open spec fn taken_from_the_start(has_base: bool) -> Seq<Seq<char>> {
    if has_base {
        seq![BRANDS@[0].1@, BRANDS@[1].1@, BRANDS@[2].1@, REFLECT_REFERENCE_CLASS@]
    } else {
        seq![BRANDS@[0].1@, BRANDS@[1].1@, BRANDS@[2].1@]
    }
}

/// The class names that types ask for.
pub open spec fn wanted_classes(lad: LadFile, order: Seq<int>) -> Seq<Option<Seq<char>>> {
    order.map_values(|i: int| Some(wanted_class_name(lad.types@[i].1.identifier@)))
}

/// An enum that has a variant.
pub open spec fn is_inhabited_enum(layout: LadTypeLayout) -> bool {
    layout matches LadTypeLayout::Enum(variants) && variants@.len() > 0
}

/// A type with something to put into a `construct` payload: named struct
/// fields, or enum variants (whose payload is the `variant` key).
pub open spec fn has_payload(layout: LadTypeLayout) -> bool {
    match layout {
        LadTypeLayout::MonoVariant(LadVariant::Struct { name: _, fields }) => fields@.len() > 0,
        _ => is_inhabited_enum(layout),
    }
}

/// The variant-name union aliases that types ask for.
pub open spec fn wanted_variant_aliases(
    lad: LadFile,
    order: Seq<int>,
    classes: Seq<Option<Seq<char>>>,
) -> Seq<Option<Seq<char>>> {
    Seq::new(
        order.len(),
        |k: int|
            if is_inhabited_enum(lad.types@[order[k]].1.layout) {
                Some(classes[k]->0 + "Variant"@)
            } else {
                None
            },
    )
}

/// The payload aliases that types ask for.
pub open spec fn wanted_init_aliases(
    lad: LadFile,
    order: Seq<int>,
    classes: Seq<Option<Seq<char>>>,
    init_types: bool,
) -> Seq<Option<Seq<char>>> {
    Seq::new(
        order.len(),
        |k: int|
            if init_types && has_payload(lad.types@[order[k]].1.layout) {
                Some(classes[k]->0 + "Init"@)
            } else {
                None
            },
    )
}

/// The class names, in naming order.
pub open spec fn class_names(lad: LadFile) -> Seq<Option<Seq<char>>> {
    allocated(
        wanted_classes(lad, naming_order(lad)),
        taken_from_the_start(reference_type(lad) is Some),
    )
}

/// The names that are taken once the classes are named.
pub open spec fn taken_after_classes(lad: LadFile) -> Seq<Seq<char>> {
    taken_from_the_start(reference_type(lad) is Some) + present(class_names(lad))
}

/// The variant-name union aliases, in naming order.
pub open spec fn variant_alias_names(lad: LadFile) -> Seq<Option<Seq<char>>> {
    allocated(
        wanted_variant_aliases(lad, naming_order(lad), class_names(lad)),
        taken_after_classes(lad),
    )
}

/// The names that are taken once the variant-name unions are named.
pub open spec fn taken_after_variants(lad: LadFile) -> Seq<Seq<char>> {
    taken_after_classes(lad) + present(variant_alias_names(lad))
}

/// The payload aliases, in naming order.
pub open spec fn init_alias_names(lad: LadFile, init_types: bool) -> Seq<Option<Seq<char>>> {
    allocated(
        wanted_init_aliases(lad, naming_order(lad), class_names(lad), init_types),
        taken_after_variants(lad),
    )
}

/// Of the given types the one with the least path, the first of them on a tie.
pub open spec fn least_path(lad: LadFile, types: Seq<int>) -> Option<int>
    decreases types.len(),
{
    if types.len() == 0 {
        None
    } else {
        match least_path(lad, types.drop_last()) {
            Some(i) => if text_le(lad.types@[i].1.path@, lad.types@[types.last()].1.path@) {
                Some(i)
            } else {
                Some(types.last())
            },
            None => Some(types.last()),
        }
    }
}

/// Whether a type is recorded as the reference proxy.
pub open spec fn is_reference_type(lad: LadFile, i: int) -> bool {
    lad.types@[i].1.metadata.mapped_to_primitive_kind == Some(
        ReflectionPrimitiveKind::ReflectReference,
    )
}

/// The reference proxy type.
pub open spec fn reference_type(lad: LadFile) -> Option<int> {
    least_path(lad, positions_where(lad.types@.len(), |i: int| is_reference_type(lad, i)))
}

/// Whether a type is declared under the given identifier.
pub open spec fn goes_by(lad: LadFile, identifier: Seq<char>, i: int) -> bool {
    lad.types@[i].1.identifier@ == identifier && declared(lad, i)
}

/// Whether a type is declared under the given identifier and is part of
/// `bevy_mod_scripting`.
pub open spec fn goes_by_in_bms(lad: LadFile, identifier: Seq<char>, i: int) -> bool {
    goes_by(lad, identifier, i) && "bevy_mod_scripting"@.is_prefix_of(lad.types@[i].1.path@)
}

/// The registration type of the given identifier: of several the one that
/// `bevy_mod_scripting` owns, of several still the one with the least path.
pub open spec fn registration_type(lad: LadFile, identifier: Seq<char>) -> Option<int> {
    let owned = least_path(
        lad,
        positions_where(lad.types@.len(), |i: int| goes_by_in_bms(lad, identifier, i)),
    );
    if owned is Some {
        owned
    } else {
        least_path(lad, positions_where(lad.types@.len(), |i: int| goes_by(lad, identifier, i)))
    }
}

/// Whether `func` belongs to the type with the given id.
pub open spec fn belongs_to(func: LadFunction, id: Seq<char>) -> bool {
    func.namespace matches LadFunctionNamespace::Type(t) && t@ == id
}

/// Whether `func` is the function behind `variant_name`: it takes a reference
/// and returns a string.
pub open spec fn backs_variant_name(func: LadFunction, reference_id: Seq<char>) -> bool {
    &&& belongs_to(func, reference_id)
    &&& func.identifier@ == "variant_name"@
    &&& exists|a: int|
        0 <= a < func.arguments@.len() && reference_primitive((#[trigger] func.arguments@[a]).kind)
    &&& holds_string(func.return_type.kind)
}

/// Whether the file records the function behind `variant_name`.
pub open spec fn records_variant_name(lad: LadFile) -> bool {
    reference_type(lad) matches Some(r) && exists|j: int|
        0 <= j < lad.functions@.len() && backs_variant_name(
            #[trigger] lad.functions@[j],
            lad.types@[r].0@,
        )
}

/// Everything that is decided about a LAD file before rendering.
pub open spec fn naming(lad: LadFile, options: Options) -> Naming {
    let count = lad.types@.len();
    let order = naming_order(lad);
    Naming {
        types: TypeNames {
            names: by_type(count, order, class_names(lad)),
            regs: Seq::new(3, |b: int| registration_type(lad, BRANDS@[b].0@)),
        },
        reflect_ref: reference_type(lad),
        variant_aliases: by_type(count, order, variant_alias_names(lad)),
        init_aliases: by_type(count, order, init_alias_names(lad, options.init_types)),
        has_variant_name: records_variant_name(lad),
    }
}

/// Positions that satisfy a predicate are listed in ascending order, and all of them.
pub proof fn lemma_positions_where(n: nat, p: spec_fn(int) -> bool)
    ensures
        forall|i: int| #[trigger] positions_where(n, p).contains(i) <==> 0 <= i < n && p(i),
        forall|a: int, b: int|
            0 <= a < b < positions_where(n, p).len() ==> #[trigger] positions_where(n, p)[a]
                < #[trigger] positions_where(n, p)[b],
        positions_where(n, p).no_duplicates(),
        positions_where(n, p).len() <= n,
    decreases n,
{
    if n > 0 {
        let front = positions_where((n - 1) as nat, p);
        let all = positions_where(n, p);
        lemma_positions_where((n - 1) as nat, p);
        assert forall|i: int| #[trigger] all.contains(i) <==> 0 <= i < n && p(i) by {
            if all.contains(i) {
                let k = choose|k: int| 0 <= k < all.len() && all[k] == i;
                if k < front.len() {
                    assert(front.contains(front[k]));
                }
            }
            if 0 <= i < n && p(i) {
                if i < n - 1 {
                    assert(front.contains(i));
                    let k = choose|k: int| 0 <= k < front.len() && front[k] == i;
                    assert(all[k] == i);
                } else {
                    assert(all[front.len() as int] == i);
                }
            }
        }
        assert forall|a: int, b: int| 0 <= a < b < all.len() implies #[trigger] all[a]
            < #[trigger] all[b] by {
            if b == front.len() {
                assert(front.contains(front[a]));
            }
        }
    }
}

/// The types that are named, each once.
pub proof fn lemma_naming_order(lad: LadFile)
    ensures
        naming_order(lad).len() == declared_types(lad).len(),
        naming_order(lad).no_duplicates(),
        forall|i: int| #[trigger]
            naming_order(lad).contains(i) <==> 0 <= i < lad.types@.len()
                && declared(lad, i),
{
    let list = declared_types(lad);
    lemma_positions_where(lad.types@.len(), |i: int| declared(lad, i));
    lemma_sorted_contains(list, plain_keys(identifiers(lad, list)));
}

/// Suffixes add to the length.
proof fn lemma_suffixed_len(name: Seq<char>, k: nat)
    ensures
        suffixed(name, k).len() == name.len() + k,
{
}

/// If `name` is taken with every number of underscores below `k`, at least `k`
/// names are taken.
proof fn lemma_suffixes_fill(name: Seq<char>, used: Seq<Seq<char>>, k: nat)
    requires
        forall|j: nat| j < k ==> used.contains(#[trigger] suffixed(name, j)),
    ensures
        k <= used.len(),
{
    let all = Seq::new(k, |j: int| suffixed(name, j as nat));
    assert forall|a: int, b: int| 0 <= a < b < all.len() implies all[a] != all[b] by {
        lemma_suffixed_len(name, a as nat);
        lemma_suffixed_len(name, b as nat);
    }
    all.unique_seq_to_set();
    used.lemma_cardinality_of_set();
    assert(all.to_set().subset_of(used.to_set())) by {
        assert forall|s: Seq<char>| all.to_set().contains(s) implies used.to_set().contains(s) by {
            let j = choose|j: int| 0 <= j < all.len() && all[j] == s;
            assert(used.contains(suffixed(name, j as nat)));
        }
    }
    vstd::set_lib::lemma_len_subset(all.to_set(), used.to_set());
}

/// There is only one least number of underscores.
proof fn lemma_least_suffix_unique(name: Seq<char>, used: Seq<Seq<char>>, k: nat)
    requires
        is_least_suffix(name, used, k),
    ensures
        fresh(name, used) == suffixed(name, k),
{
    let c = choose|c: nat| is_least_suffix(name, used, c);
    assert(is_least_suffix(name, used, c));
    if c < k {
        assert(used.contains(suffixed(name, c)));
    }
    if k < c {
        assert(used.contains(suffixed(name, k)));
    }
}

/// There is a least number of underscores.
pub proof fn lemma_least_suffix_exists_from(name: Seq<char>, used: Seq<Seq<char>>, k: nat)
    requires
        forall|j: nat| j < k ==> used.contains(#[trigger] suffixed(name, j)),
        k <= used.len(),
    ensures
        exists|c: nat| is_least_suffix(name, used, c),
    decreases used.len() - k,
{
    if !used.contains(suffixed(name, k)) {
        assert(is_least_suffix(name, used, k));
    } else {
        lemma_suffixes_fill(name, used, k + 1);
        lemma_least_suffix_exists_from(name, used, k + 1);
    }
}

/// A fresh name is not taken yet, and begins with the name that was asked for.
pub proof fn law_fresh(name: Seq<char>, used: Seq<Seq<char>>)
    ensures
        !used.contains(fresh(name, used)),
        name.is_prefix_of(fresh(name, used)),
        !used.contains(name) ==> fresh(name, used) == name,
{
    lemma_least_suffix_exists_from(name, used, 0);
    let k = choose|k: nat| is_least_suffix(name, used, k);
    assert(suffixed(name, k).subrange(0, name.len() as int) =~= name);
    assert(suffixed(name, 0) =~= name);
    if !used.contains(name) {
        assert(is_least_suffix(name, used, 0));
        lemma_least_suffix_unique(name, used, 0);
    }
}

/// `name` with underscores behind it until it is not in `used`.
pub fn fresh_name(name: String, used: &Vec<String>) -> (r: String)
    ensures
        r@ == fresh(name@, texts(used@)),
{
    let mut out = name;
    let ghost start = name@;
    let ghost mut k: nat = 0;
    assert(suffixed(start, 0) =~= start);
    while contains_text(used, out.as_str())
        invariant
            out@ == suffixed(start, k),
            k <= used@.len(),
            forall|j: nat| j < k ==> texts(used@).contains(#[trigger] suffixed(start, j)),
        decreases used@.len() - k,
    {
        proof {
            lemma_suffixes_fill(start, texts(used@), k + 1);
            assert(suffixed(start, k).push('_') =~= suffixed(start, k + 1));
            k = k + 1;
        }
        out.push('_');
    }
    proof {
        lemma_least_suffix_unique(start, texts(used@), k);
    }
    out
}

/// Those that ask for a name get one, and only those.
pub proof fn lemma_allocated_present(wanted: Seq<Option<Seq<char>>>, used: Seq<Seq<char>>)
    ensures
        allocated(wanted, used).len() == wanted.len(),
        forall|k: int|
            0 <= k < wanted.len() ==> ((#[trigger] allocated(wanted, used)[k]) is Some
                <==> wanted[k] is Some),
    decreases wanted.len(),
{
    if wanted.len() > 0 {
        lemma_allocated_present(wanted.drop_last(), used);
        let front = allocated(wanted.drop_last(), used);
        assert forall|k: int| 0 <= k < wanted.len() implies ((#[trigger] allocated(
            wanted,
            used,
        )[k]) is Some <==> wanted[k] is Some) by {
            if k < wanted.len() - 1 {
                assert(front[k] is Some <==> wanted.drop_last()[k] is Some);
            }
        }
    }
}

/// Hands out the names that are asked for, in order, and marks them as used.
pub fn allocate(wanted: Vec<Option<String>>, used: &mut Vec<String>) -> (r: Vec<Option<String>>)
    ensures
        option_texts(r@) == allocated(option_texts(wanted@), texts(old(used)@)),
        texts(final(used)@) == texts(old(used)@) + present(option_texts(r@)),
{
    let ghost asked = option_texts(wanted@);
    let ghost before = texts(used@);
    let mut out: Vec<Option<String>> = Vec::new();
    let mut i: usize = 0;
    assert(option_texts(out@) =~= Seq::<Option<Seq<char>>>::empty());
    assert(before + present(option_texts(out@)) =~= before);
    while i < wanted.len()
        invariant
            i <= wanted.len(),
            asked == option_texts(wanted@),
            out@.len() == i,
            option_texts(out@) == allocated(asked.take(i as int), before),
            texts(used@) == before + present(option_texts(out@)),
        decreases wanted.len() - i,
    {
        let ghost front = option_texts(out@);
        let ghost used_before = used@;
        assert(asked.take(i + 1).drop_last() =~= asked.take(i as int));
        assert(asked.take(i + 1).last() == option_text(wanted@[i as int]));
        match &wanted[i] {
            Some(name) => {
                let given = fresh_name(name.clone(), used);
                used.push(given.clone());
                out.push(Some(given));
                proof {
                    lemma_texts_push(used_before, given);
                    assert(option_texts(out@) =~= front.push(Some(given@)));
                    assert(front.push(Some(given@)).drop_last() =~= front);
                    assert(before + present(front).push(given@) =~= (before + present(front)).push(
                        given@,
                    ));
                }
            },
            None => {
                out.push(None);
                proof {
                    assert(option_texts(out@) =~= front.push(None));
                    assert(front.push(None).drop_last() =~= front);
                }
            },
        }
        i += 1;
    }
    assert(asked.take(i as int) =~= asked);
    out
}

} // verus!
