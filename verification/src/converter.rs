//! The converter: a LAD file together with the names decided for it.

use vstd::prelude::*;

use crate::ident::sanitize;
use crate::kinds::{contains_string_primitive, holds_string, is_reference, reference_primitive};
use crate::lad::{
    LadFile, LadFunction, LadFunctionNamespace, LadTypeLayout, LadVariant, ReflectionPrimitiveKind,
};
use crate::naming::{
    self, allocate, BRANDS, declared, goes_by, goes_by_in_bms, identifiers, is_reference_type,
    lemma_allocated_present, lemma_naming_order, lemma_positions_where, Naming, naming,
    positions_where, REFLECT_REFERENCE_CLASS, taken_after_classes, taken_after_variants, TypeNames,
};
use crate::options::Options;
use crate::order::{ints, key_texts, lemma_key_texts_push, plain_keys, sorted_by_keys};
use crate::text::{
    lemma_option_texts_push, lemma_take_push, option_text, option_texts, same_text, starts_with,
    text_at_most, texts,
};

verus! {

/// A LAD file together with the names decided for it.
pub struct Converter<'a> {
    /// The file.
    pub lad: &'a LadFile,
    /// By position of the type, the Luau identifier we declare it under
    /// (sanitised + unique). Set for every non-primitive type in the LAD file,
    /// so type references resolve dynamically with no hard-coded names.
    pub names: Vec<Option<String>>,
    /// The BMS registration types (component/resource/type, in [`BRANDS`] order),
    /// when present in the LAD file: the anchors for the phantom-typed brands.
    pub regs: [Option<usize>; 3],
    /// The `ReflectReference` proxy type, when recorded in the LAD file. Every
    /// script-visible value of a declared class is such a proxy at runtime, so
    /// it is declared as a base class (carrying its namespaced methods) that
    /// every other class `extends`. In *signatures* the reference primitive
    /// stays `any`/`T` — the class exists only to grant the shared methods.
    pub reflect_ref: Option<usize>,
    /// By position of an enum, the name of its exported variant-name union alias
    /// (`export type <Class>Variant = "A" | "B"`), for enums with >= 1 variant.
    pub variant_aliases: Vec<Option<String>>,
    /// By position of the type, the name of its exported `construct` payload
    /// alias (`export type <Class>Init = { … }`), for types with something to
    /// fill in.
    pub init_aliases: Vec<Option<String>>,
    /// Whether the registry records `ReflectReference`'s `variant_name`
    /// function (a reference in, a string out). Only then do enum classes get
    /// the typed `function variant_name(self): <union>` override — the
    /// override must be backed by something real, like everything else.
    pub has_variant_name: bool,
}

/// An optional position as a mathematical integer.
pub open spec fn option_int(position: Option<usize>) -> Option<int> {
    match position {
        Some(i) => Some(i as int),
        None => None,
    }
}

impl<'a> View for Converter<'a> {
    type V = Naming;

    open spec fn view(&self) -> Naming {
        Naming {
            types: TypeNames {
                names: option_texts(self.names@),
                regs: self.regs@.map_values(|r: Option<usize>| option_int(r)),
            },
            reflect_ref: option_int(self.reflect_ref),
            variant_aliases: option_texts(self.variant_aliases@),
            init_aliases: option_texts(self.init_aliases@),
            has_variant_name: self.has_variant_name,
        }
    }
}

impl<'a> Converter<'a> {
    /// There is an entry for every type, and every position lies in the file.
    pub open spec fn wf(&self) -> bool {
        &&& self.names@.len() == self.lad.types@.len()
        &&& self.variant_aliases@.len() == self.lad.types@.len()
        &&& self.init_aliases@.len() == self.lad.types@.len()
        &&& self.reflect_ref matches Some(i) ==> i < self.lad.types@.len()
        &&& forall|b: int|
            0 <= b < 3 ==> (#[trigger] self.regs@[b] matches Some(i) ==> i
                < self.lad.types@.len())
    }
}

fn is_declared(lad: &LadFile, i: usize) -> (r: bool)
    requires
        i < lad.types@.len(),
    ensures
        r == declared(*lad, i as int),
{
    lad.types[i].1.metadata.mapped_to_primitive_kind.is_none()
}

/// The types that get a class of their own, in the file's order.
pub fn declared_types(lad: &LadFile) -> (r: Vec<usize>)
    ensures
        ints(r@) == naming::declared_types(*lad),
{
    let ghost p = |i: int| declared(*lad, i);
    let mut out: Vec<usize> = Vec::new();
    let mut i: usize = 0;
    assert(ints(out@) =~= Seq::<int>::empty());
    while i < lad.types.len()
        invariant
            i <= lad.types@.len(),
            p == (|i: int| declared(*lad, i)),
            ints(out@) == positions_where(i as nat, p),
        decreases lad.types@.len() - i,
    {
        if is_declared(lad, i) {
            assert(ints(out@.push(i)) =~= ints(out@).push(i as int));
            out.push(i);
        }
        i += 1;
    }
    out
}

/// The order in which types are named: by identifier.
fn naming_order(lad: &LadFile) -> (r: Vec<usize>)
    ensures
        ints(r@) == naming::naming_order(*lad),
{
    let list = declared_types(lad);
    let ghost wanted = plain_keys(identifiers(*lad, ints(list@)));
    proof {
        lemma_positions_where(lad.types@.len(), |i: int| declared(*lad, i));
    }
    let mut keys: Vec<(String, String)> = Vec::new();
    let mut i: usize = 0;
    assert(key_texts(keys@) =~= wanted.take(0));
    while i < list.len()
        invariant
            i <= list@.len(),
            ints(list@) == naming::declared_types(*lad),
            forall|x: int| #[trigger]
                ints(list@).contains(x) ==> 0 <= x < lad.types@.len(),
            wanted == plain_keys(identifiers(*lad, ints(list@))),
            key_texts(keys@) == wanted.take(i as int),
        decreases list@.len() - i,
    {
        assert(ints(list@).contains(ints(list@)[i as int]));
        let key = (lad.types[list[i]].1.identifier.clone(), String::new());
        proof {
            lemma_key_texts_push(keys@, key);
            lemma_take_push(wanted, i as int);
            assert(identifiers(*lad, ints(list@))[i as int] == key.0@);
        }
        keys.push(key);
        i += 1;
    }
    assert(wanted.take(i as int) =~= wanted);
    assert(wanted.len() == key_texts(keys@).len());
    sorted_by_keys(&list, &keys)
}

/// Spreads what was handed out in `order` over the types.
fn by_type(count: usize, order: &Vec<usize>, names: &Vec<Option<String>>) -> (r: Vec<
    Option<String>,
>)
    requires
        names@.len() == order@.len(),
        ints(order@).no_duplicates(),
        forall|k: int| 0 <= k < order@.len() ==> (#[trigger] order@[k]) < count,
    ensures
        option_texts(r@) == naming::by_type(count as nat, ints(order@), option_texts(names@)),
{
    let mut out: Vec<Option<String>> = Vec::new();
    let mut i: usize = 0;
    while i < count
        invariant
            i <= count,
            out@.len() == i,
            forall|x: int| 0 <= x < i ==> (#[trigger] out@[x]) is None,
        decreases count - i,
    {
        out.push(None);
        i += 1;
    }
    let mut k: usize = 0;
    while k < order.len()
        invariant
            k <= order@.len(),
            names@.len() == order@.len(),
            out@.len() == count,
            ints(order@).no_duplicates(),
            forall|j: int| 0 <= j < order@.len() ==> (#[trigger] order@[j]) < count,
            forall|j: int|
                0 <= j < k ==> option_text(out@[(#[trigger] order@[j]) as int])
                    == option_text(names@[j]),
            forall|x: int|
                0 <= x < count && !ints(order@).take(k as int).contains(x)
                    ==> (#[trigger] out@[x]) is None,
        decreases order@.len() - k,
    {
        let given: Option<String> = match &names[k] {
            Some(s) => Some(s.clone()),
            None => None,
        };
        let ghost at = order@[k as int] as int;
        out.set(order[k], given);
        proof {
            assert(ints(order@).take(k + 1) =~= ints(order@).take(k as int).push(at));
            assert forall|j: int| 0 <= j < k + 1 implies option_text(
                out@[(#[trigger] order@[j]) as int],
            ) == option_text(names@[j]) by {
                if j < k {
                    assert(ints(order@)[j] != ints(order@)[k as int]);
                }
            }
            assert forall|x: int|
                0 <= x < count && !ints(order@).take(k + 1).contains(x) implies (
            #[trigger] out@[x]) is None by {
                let longer = ints(order@).take(k + 1);
                let shorter = ints(order@).take(k as int);
                if shorter.contains(x) {
                    let j = choose|j: int| 0 <= j < shorter.len() && shorter[j] == x;
                    assert(longer[j] == x);
                }
                assert(longer[k as int] == at);
            }
        }
        k += 1;
    }
    proof {
        let o = ints(order@);
        let spread = naming::by_type(count as nat, o, option_texts(names@));
        assert(o.take(k as int) =~= o);
        assert forall|x: int| 0 <= x < count implies option_texts(out@)[x] == spread[x] by {
            if o.contains(x) {
                let j = o.index_of(x);
                assert(o[j] == x);
                assert(order@[j] as int == x);
            } else {
                assert(out@[x] is None);
            }
        }
        assert(option_texts(out@) =~= spread);
    }
    out
}

/// Whether a layout is that of an enum with a variant.
fn is_inhabited_enum(layout: &LadTypeLayout) -> (r: bool)
    ensures
        r == naming::is_inhabited_enum(*layout),
{
    match layout {
        LadTypeLayout::Enum(variants) => variants.len() > 0,
        _ => false,
    }
}

/// Whether a layout has something to put into a `construct` payload.
fn has_payload(layout: &LadTypeLayout) -> (r: bool)
    ensures
        r == naming::has_payload(*layout),
{
    match layout {
        LadTypeLayout::MonoVariant(LadVariant::Struct { name: _, fields }) => fields.len() > 0,
        _ => is_inhabited_enum(layout),
    }
}

/// Of the given types the one with the least path, the first of them on a tie.
fn least_path(lad: &LadFile, types: &Vec<usize>) -> (r: Option<usize>)
    requires
        forall|k: int| 0 <= k < types@.len() ==> (#[trigger] types@[k]) < lad.types@.len(),
    ensures
        option_int(r) == naming::least_path(*lad, ints(types@)),
        r matches Some(i) ==> i < lad.types@.len(),
{
    let mut best: Option<usize> = None;
    let mut k: usize = 0;
    while k < types.len()
        invariant
            k <= types@.len(),
            forall|j: int| 0 <= j < types@.len() ==> (#[trigger] types@[j]) < lad.types@.len(),
            option_int(best) == naming::least_path(*lad, ints(types@).take(k as int)),
            best matches Some(i) ==> i < lad.types@.len(),
        decreases types@.len() - k,
    {
        let ghost next = ints(types@).take(k + 1);
        assert(next.drop_last() =~= ints(types@).take(k as int));
        assert(next.last() == types@[k as int] as int);
        best = match best {
            Some(i) => {
                if text_at_most(lad.types[i].1.path.as_str(), lad.types[types[k]].1.path.as_str()) {
                    Some(i)
                } else {
                    Some(types[k])
                }
            },
            None => Some(types[k]),
        };
        k += 1;
    }
    assert(ints(types@).take(k as int) =~= ints(types@));
    best
}

/// The reference proxy type.
fn reference_type(lad: &LadFile) -> (r: Option<usize>)
    ensures
        option_int(r) == naming::reference_type(*lad),
        r matches Some(i) ==> i < lad.types@.len(),
{
    let ghost p = |i: int| is_reference_type(*lad, i);
    let mut found: Vec<usize> = Vec::new();
    let mut i: usize = 0;
    assert(ints(found@) =~= Seq::<int>::empty());
    while i < lad.types.len()
        invariant
            i <= lad.types@.len(),
            p == (|i: int| is_reference_type(*lad, i)),
            ints(found@) == positions_where(i as nat, p),
            forall|k: int| 0 <= k < found@.len() ==> (#[trigger] found@[k]) < i,
        decreases lad.types@.len() - i,
    {
        let matching = match &lad.types[i].1.metadata.mapped_to_primitive_kind {
            Some(ReflectionPrimitiveKind::ReflectReference) => true,
            _ => false,
        };
        if matching {
            assert(ints(found@.push(i)) =~= ints(found@).push(i as int));
            found.push(i);
        }
        i += 1;
    }
    least_path(lad, &found)
}

/// The registration type of the given identifier.
fn registration_type(lad: &LadFile, identifier: &str) -> (r: Option<usize>)
    ensures
        option_int(r) == naming::registration_type(*lad, identifier@),
        r matches Some(i) ==> i < lad.types@.len(),
{
    let ghost p = |i: int| goes_by_in_bms(*lad, identifier@, i);
    let ghost q = |i: int| goes_by(*lad, identifier@, i);
    let mut owned: Vec<usize> = Vec::new();
    let mut found: Vec<usize> = Vec::new();
    let mut i: usize = 0;
    assert(ints(owned@) =~= Seq::<int>::empty());
    assert(ints(found@) =~= Seq::<int>::empty());
    while i < lad.types.len()
        invariant
            i <= lad.types@.len(),
            p == (|i: int| goes_by_in_bms(*lad, identifier@, i)),
            q == (|i: int| goes_by(*lad, identifier@, i)),
            ints(owned@) == positions_where(i as nat, p),
            ints(found@) == positions_where(i as nat, q),
            forall|k: int| 0 <= k < owned@.len() ==> (#[trigger] owned@[k]) < i,
            forall|k: int| 0 <= k < found@.len() ==> (#[trigger] found@[k]) < i,
        decreases lad.types@.len() - i,
    {
        if same_text(lad.types[i].1.identifier.as_str(), identifier) && is_declared(lad, i) {
            assert(ints(found@.push(i)) =~= ints(found@).push(i as int));
            found.push(i);
            if starts_with(lad.types[i].1.path.as_str(), "bevy_mod_scripting") {
                assert(ints(owned@.push(i)) =~= ints(owned@).push(i as int));
                owned.push(i);
            }
        }
        i += 1;
    }
    let preferred = least_path(lad, &owned);
    if preferred.is_some() {
        preferred
    } else {
        least_path(lad, &found)
    }
}

/// Whether `func` belongs to the type with the given id.
pub fn belongs_to(func: &LadFunction, id: &str) -> (r: bool)
    ensures
        r == naming::belongs_to(*func, id@),
{
    match &func.namespace {
        LadFunctionNamespace::Type(t) => same_text(t.0.as_str(), id),
        LadFunctionNamespace::Global => false,
    }
}

/// Whether `func` is the function behind `variant_name`.
fn backs_variant_name(func: &LadFunction, reference_id: &str) -> (r: bool)
    ensures
        r == naming::backs_variant_name(*func, reference_id@),
{
    if !belongs_to(func, reference_id) || !same_text(func.identifier.as_str(), "variant_name")
        || !contains_string_primitive(&func.return_type.kind) {
        return false;
    }
    let mut a: usize = 0;
    while a < func.arguments.len()
        invariant
            naming::belongs_to(*func, reference_id@),
            func.identifier@ == "variant_name"@,
            holds_string(func.return_type.kind),
            a <= func.arguments@.len(),
            forall|k: int|
                0 <= k < a ==> !reference_primitive((#[trigger] func.arguments@[k]).kind),
        decreases func.arguments@.len() - a,
    {
        if is_reference(&func.arguments[a].kind) {
            assert(reference_primitive(func.arguments@[a as int].kind));
            return true;
        }
        a += 1;
    }
    false
}

fn records_variant_name(lad: &LadFile, reflect_ref: Option<usize>) -> (r: bool)
    requires
        option_int(reflect_ref) == naming::reference_type(*lad),
        reflect_ref matches Some(i) ==> i < lad.types@.len(),
    ensures
        r == naming::records_variant_name(*lad),
{
    match reflect_ref {
        Some(at) => {
            let mut j: usize = 0;
            while j < lad.functions.len()
                invariant
                    j <= lad.functions@.len(),
                    at < lad.types@.len(),
                    naming::reference_type(*lad) == Some(at as int),
                    forall|k: int|
                        0 <= k < j ==> !naming::backs_variant_name(
                            #[trigger] lad.functions@[k],
                            lad.types@[at as int].0@,
                        ),
                decreases lad.functions@.len() - j,
            {
                if backs_variant_name(&lad.functions[j], lad.types[at].0.0.as_str()) {
                    assert(naming::backs_variant_name(
                        lad.functions@[j as int],
                        lad.types@[at as int].0@,
                    ));
                    return true;
                }
                j += 1;
            }
            false
        },
        None => false,
    }
}

/// The class names that types ask for.
fn wanted_classes(lad: &LadFile, order: &Vec<usize>) -> (r: Vec<Option<String>>)
    requires
        forall|k: int| 0 <= k < order@.len() ==> (#[trigger] order@[k]) < lad.types@.len(),
    ensures
        option_texts(r@) == naming::wanted_classes(*lad, ints(order@)),
{
    let ghost wanted = naming::wanted_classes(*lad, ints(order@));
    let mut out: Vec<Option<String>> = Vec::new();
    let mut k: usize = 0;
    assert(option_texts(out@) =~= wanted.take(0));
    while k < order.len()
        invariant
            k <= order@.len(),
            forall|j: int| 0 <= j < order@.len() ==> (#[trigger] order@[j]) < lad.types@.len(),
            wanted == naming::wanted_classes(*lad, ints(order@)),
            option_texts(out@) == wanted.take(k as int),
        decreases order@.len() - k,
    {
        let mut name = sanitize(lad.types[order[k]].1.identifier.as_str());
        if name.as_str().is_empty() {
            name = "Unknown".to_owned();
        }
        let given = Some(name);
        proof {
            lemma_option_texts_push(out@, given);
            lemma_take_push(wanted, k as int);
            assert(ints(order@)[k as int] == order@[k as int] as int);
        }
        out.push(given);
        k += 1;
    }
    assert(wanted.take(k as int) =~= wanted);
    out
}

/// A class name with something behind it.
fn alias_of(class: &Option<String>, suffix: &str) -> (r: String)
    requires
        class is Some,
    ensures
        r@ == class->0@ + suffix@,
{
    match class {
        Some(name) => {
            let mut out = name.clone();
            out.append(suffix);
            out
        },
        None => String::new(),
    }
}

/// The variant-name union aliases that types ask for.
fn wanted_variant_aliases(lad: &LadFile, order: &Vec<usize>, classes: &Vec<Option<String>>) -> (r:
    Vec<Option<String>>)
    requires
        classes@.len() == order@.len(),
        forall|k: int| 0 <= k < order@.len() ==> (#[trigger] order@[k]) < lad.types@.len(),
        forall|k: int| 0 <= k < classes@.len() ==> (#[trigger] classes@[k]) is Some,
    ensures
        option_texts(r@) == naming::wanted_variant_aliases(
            *lad,
            ints(order@),
            option_texts(classes@),
        ),
{
    let ghost wanted = naming::wanted_variant_aliases(*lad, ints(order@), option_texts(classes@));
    let mut out: Vec<Option<String>> = Vec::new();
    let mut k: usize = 0;
    assert(option_texts(out@) =~= wanted.take(0));
    while k < order.len()
        invariant
            k <= order@.len(),
            classes@.len() == order@.len(),
            forall|j: int| 0 <= j < order@.len() ==> (#[trigger] order@[j]) < lad.types@.len(),
            forall|j: int| 0 <= j < classes@.len() ==> (#[trigger] classes@[j]) is Some,
            wanted == naming::wanted_variant_aliases(*lad, ints(order@), option_texts(classes@)),
            option_texts(out@) == wanted.take(k as int),
        decreases order@.len() - k,
    {
        assert(classes@[k as int] is Some);
        let given = if is_inhabited_enum(&lad.types[order[k]].1.layout) {
            Some(alias_of(&classes[k], "Variant"))
        } else {
            None
        };
        proof {
            lemma_option_texts_push(out@, given);
            lemma_take_push(wanted, k as int);
            assert(ints(order@)[k as int] == order@[k as int] as int);
            assert(option_texts(classes@)[k as int] == Some(classes@[k as int]->0@));
        }
        out.push(given);
        k += 1;
    }
    assert(wanted.take(k as int) =~= wanted);
    out
}

/// The payload aliases that types ask for.
fn wanted_init_aliases(
    lad: &LadFile,
    order: &Vec<usize>,
    classes: &Vec<Option<String>>,
    init_types: bool,
) -> (r: Vec<Option<String>>)
    requires
        classes@.len() == order@.len(),
        forall|k: int| 0 <= k < order@.len() ==> (#[trigger] order@[k]) < lad.types@.len(),
        forall|k: int| 0 <= k < classes@.len() ==> (#[trigger] classes@[k]) is Some,
    ensures
        option_texts(r@) == naming::wanted_init_aliases(
            *lad,
            ints(order@),
            option_texts(classes@),
            init_types,
        ),
{
    let ghost wanted = naming::wanted_init_aliases(
        *lad,
        ints(order@),
        option_texts(classes@),
        init_types,
    );
    let mut out: Vec<Option<String>> = Vec::new();
    let mut k: usize = 0;
    assert(option_texts(out@) =~= wanted.take(0));
    while k < order.len()
        invariant
            k <= order@.len(),
            classes@.len() == order@.len(),
            forall|j: int| 0 <= j < order@.len() ==> (#[trigger] order@[j]) < lad.types@.len(),
            forall|j: int| 0 <= j < classes@.len() ==> (#[trigger] classes@[j]) is Some,
            wanted == naming::wanted_init_aliases(
                *lad,
                ints(order@),
                option_texts(classes@),
                init_types,
            ),
            option_texts(out@) == wanted.take(k as int),
        decreases order@.len() - k,
    {
        assert(classes@[k as int] is Some);
        let given = if init_types && has_payload(&lad.types[order[k]].1.layout) {
            Some(alias_of(&classes[k], "Init"))
        } else {
            None
        };
        proof {
            lemma_option_texts_push(out@, given);
            lemma_take_push(wanted, k as int);
            assert(ints(order@)[k as int] == order@[k as int] as int);
            assert(option_texts(classes@)[k as int] == Some(classes@[k as int]->0@));
        }
        out.push(given);
        k += 1;
    }
    assert(wanted.take(k as int) =~= wanted);
    out
}

/// The names that are taken before any type is named.
fn taken_from_the_start(has_base: bool) -> (r: Vec<String>)
    ensures
        texts(r@) == naming::taken_from_the_start(has_base),
{
    let brands = BRANDS;
    let mut out: Vec<String> = Vec::new();
    out.push(brands[0].1.to_owned());
    out.push(brands[1].1.to_owned());
    out.push(brands[2].1.to_owned());
    if has_base {
        out.push(REFLECT_REFERENCE_CLASS.to_owned());
    }
    assert(texts(out@) =~= naming::taken_from_the_start(has_base));
    out
}

impl<'a> Converter<'a> {
    /// Decides the names for a LAD file.
    pub fn new(lad: &'a LadFile, options: &Options) -> (r: Self)
        ensures
            *r.lad == *lad,
            r@ == naming(*lad, *options),
            r.wf(),
    {
        let reflect_ref = reference_type(lad);
        let order = naming_order(lad);
        proof {
            lemma_naming_order(*lad);
            assert forall|k: int| 0 <= k < order@.len() implies (#[trigger] order@[k])
                < lad.types@.len() by {
                assert(ints(order@).contains(ints(order@)[k]));
            }
        }
        let mut used = taken_from_the_start(reflect_ref.is_some());
        let classes = allocate(wanted_classes(lad, &order), &mut used);
        proof {
            lemma_allocated_present(
                naming::wanted_classes(*lad, ints(order@)),
                naming::taken_from_the_start(reflect_ref is Some),
            );
            assert forall|k: int| 0 <= k < classes@.len() implies (#[trigger] classes@[k])
                is Some by {
                assert(option_texts(classes@)[k] is Some);
            }
        }
        let variant_aliases = allocate(wanted_variant_aliases(lad, &order, &classes), &mut used);
        let init_aliases = allocate(
            wanted_init_aliases(lad, &order, &classes, options.init_types),
            &mut used,
        );
        proof {
            lemma_allocated_present(
                naming::wanted_variant_aliases(*lad, ints(order@), option_texts(classes@)),
                taken_after_classes(*lad),
            );
            lemma_allocated_present(
                naming::wanted_init_aliases(
                    *lad,
                    ints(order@),
                    option_texts(classes@),
                    options.init_types,
                ),
                taken_after_variants(*lad),
            );
        }
        let brands = BRANDS;
        let regs = [
            registration_type(lad, brands[0].0),
            registration_type(lad, brands[1].0),
            registration_type(lad, brands[2].0),
        ];
        let count: usize = lad.types.len();
        let r = Converter {
            lad,
            names: by_type(count, &order, &classes),
            regs,
            reflect_ref,
            variant_aliases: by_type(count, &order, &variant_aliases),
            init_aliases: by_type(count, &order, &init_aliases),
            has_variant_name: records_variant_name(lad, reflect_ref),
        };
        proof {
            let n = naming(*lad, *options);
            assert(r@.types.regs =~= n.types.regs);
            assert(option_texts(r.names@).len() == count);
            assert(option_texts(r.variant_aliases@).len() == count);
            assert(option_texts(r.init_aliases@).len() == count);
        }
        r
    }
}

} // verus!
