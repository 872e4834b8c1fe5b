//! What holds of every definition file as a whole.

pub mod calls;
pub mod classes;
pub mod command;
pub mod file;
pub mod kinds;
pub mod names;
pub mod skipped;
pub mod views;
pub mod writing;

use vstd::prelude::*;

use crate::classes::{
    class_declaration, class_functions, class_head, class_order, class_place, class_text,
    class_texts, law_class_order, layout_members, payload_text, variant_name_override,
    variant_union_text,
};
use crate::docs::optional_doc_comment;
use crate::ident::{
    callable, is_identifier, law_callable_is_honest, law_sanitized_is_identifier, reserved,
    sanitized,
};
use crate::lad::LadFile;
use crate::members::{
    functions_of, global_function_text, global_function_texts, global_functions, global_place,
    is_global, lemma_functions_of, member_text, member_texts,
};
use crate::naming::{
    self, allocated, backs_variant_name, belongs_to, BRANDS, by_type, class_names, declared, fresh,
    goes_by, goes_by_in_bms, has_payload, init_alias_names, is_inhabited_enum, is_least_suffix,
    law_fresh, least_path, lemma_allocated_present, lemma_naming_order, lemma_positions_where,
    Naming, naming_order, positions_where, present, reference_type, REFLECT_REFERENCE_CLASS,
    registration_type, suffixed, taken_after_classes, taken_after_variants, taken_from_the_start,
    variant_alias_names, wanted_class_name, wanted_classes, wanted_init_aliases,
    wanted_variant_aliases,
};
use crate::options::{flag_argument, flag_lines, Options};
use crate::order::{lemma_sorted_contains, plain_keys};
use crate::overloads::{
    documentation_score, law_best_documented_copy_is_kept, law_identity_tells_generic,
    law_one_member_per_signature, overload_key, overloads, PlaceView,
};
use crate::render::{
    base_functions, base_place, base_text, brand_line, brands_text, file_text, global_line,
    global_lines, globals_order, HEADER, HEADER_END, header_text, instance_name, is_shown,
    luau_text, shown_globals,
};
use crate::text::{
    concat, lemma_occurs_in_concat, lemma_occurs_in_left, lemma_occurs_in_right,
    lemma_occurs_in_self, occurs_in, option_text,
};
use crate::types::{find_first, type_text, type_with_id};

verus! {

/// What is handed out is free, pairwise different, and what was asked for up
/// to underscores at the end.
proof fn lemma_allocated(wanted: Seq<Option<Seq<char>>>, used: Seq<Seq<char>>)
    ensures
        allocated(wanted, used).len() == wanted.len(),
        forall|k: int|
            0 <= k < wanted.len() ==> ((#[trigger] allocated(
                wanted,
                used,
            )[k]) matches Some(name) ==> {
                &&& !used.contains(name)
                &&& present(allocated(wanted, used)).contains(name)
                &&& wanted[k] is Some
                &&& exists|m: nat| name == #[trigger] suffixed(wanted[k]->0, m)
            }),
        forall|j: int, k: int|
            0 <= j < k < wanted.len() && (#[trigger] allocated(wanted, used)[j])
                is Some ==> allocated(wanted, used)[j]
                != #[trigger] allocated(wanted, used)[k],
    decreases wanted.len(),
{
    if wanted.len() > 0 {
        let front_wanted = wanted.drop_last();
        lemma_allocated(front_wanted, used);
        let front = allocated(front_wanted, used);
        let all = allocated(wanted, used);
        assert(all.drop_last() =~= front);
        let last = wanted.len() - 1;
        if wanted.last() is Some {
            let w = wanted.last()->0;
            let taken = used + present(front);
            law_fresh(w, taken);
            let given = fresh(w, taken);
            assert(all[last] == Some(given));
            assert(!used.contains(given)) by {
                if used.contains(given) {
                    let i = choose|i: int| 0 <= i < used.len() && used[i] == given;
                    assert(taken[i] == given);
                }
            }
            assert(!present(front).contains(given)) by {
                let p = present(front);
                if p.contains(given) {
                    let i = choose|i: int| 0 <= i < p.len() && p[i] == given;
                    assert(taken[used.len() + i] == given);
                }
            }
            let p = present(all);
            assert(p[p.len() - 1] == given);
            assert(p.contains(given));
            let m = choose|m: nat| is_least_suffix(w, taken, m);
            assert(given == suffixed(w, m));
        }
        assert forall|k: int| 0 <= k < wanted.len() implies ((#[trigger] all[k]) matches Some(
            name,
        ) ==> {
            &&& !used.contains(name)
            &&& present(all).contains(name)
            &&& wanted[k] is Some
            &&& exists|m: nat| name == #[trigger] suffixed(wanted[k]->0, m)
        }) by {
            if k < last && all[k] is Some {
                assert(front[k] == all[k]);
                let name = front[k]->0;
                let p = present(front);
                let i = choose|i: int| 0 <= i < p.len() && p[i] == name;
                assert(present(all)[i] == name);
                assert(front_wanted[k] == wanted[k]);
            }
        }
        assert forall|j: int, k: int|
            0 <= j < k < wanted.len() && (#[trigger] all[j]) is Some implies all[j]
            != #[trigger] all[k] by {
            assert(front[j] == all[j]);
            if k < last {
                assert(front[k] == all[k]);
            } else if all[k] is Some {
                assert(present(front).contains(front[j]->0));
            }
        }
    }
}

/// What a type gets when names are spread over the types.
proof fn lemma_by_type(count: nat, order: Seq<int>, names: Seq<Option<Seq<char>>>, i: int)
    requires
        0 <= i < count,
    ensures
        by_type(count, order, names)[i] is Some ==> 0 <= order.index_of(i)
            < order.len() && order[order.index_of(i)] == i && names[order.index_of(i)]
            == by_type(count, order, names)[i],
        order.contains(i) ==> by_type(count, order, names)[i]
            == names[order.index_of(i)],
{
}

/// The names that the file declares are all different: no two classes, no two
/// aliases, and no class and alias share a name, and none of them is the name
/// of a brand or, where there is one, of the base class.
pub proof fn law_names_are_distinct(lad: LadFile, options: Options, i: int, j: int)
    requires
        0 <= i < lad.types@.len(),
        0 <= j < lad.types@.len(),
    ensures
        ({
            let n = naming::naming(lad, options);
            let start = taken_from_the_start(n.reflect_ref is Some);
            &&& n.types.names[i] matches Some(name) ==> {
                &&& !start.contains(name)
                &&& i != j ==> n.types.names[j] != Some(name)
                &&& n.variant_aliases[j] != Some(name)
                &&& n.init_aliases[j] != Some(name)
            }
            &&& n.variant_aliases[i] matches Some(name) ==> {
                &&& !start.contains(name)
                &&& i != j ==> n.variant_aliases[j] != Some(name)
                &&& n.init_aliases[j] != Some(name)
            }
            &&& n.init_aliases[i] matches Some(name) ==> {
                &&& !start.contains(name)
                &&& i != j ==> n.init_aliases[j] != Some(name)
            }
        }),
{
    let n = naming::naming(lad, options);
    let start = taken_from_the_start(n.reflect_ref is Some);
    let count = lad.types@.len();
    let order = naming_order(lad);
    let classes = class_names(lad);
    let variants = variant_alias_names(lad);
    let inits = init_alias_names(lad, options.init_types);
    let after_classes = taken_after_classes(lad);
    let after_variants = taken_after_variants(lad);
    lemma_naming_order(lad);
    lemma_allocated(wanted_classes(lad, order), start);
    lemma_allocated(wanted_variant_aliases(lad, order, classes), after_classes);
    lemma_allocated(wanted_init_aliases(lad, order, classes, options.init_types), after_variants);
    lemma_by_type(count, order, classes, i);
    lemma_by_type(count, order, variants, i);
    lemma_by_type(count, order, inits, i);
    lemma_by_type(count, order, classes, j);
    lemma_by_type(count, order, variants, j);
    lemma_by_type(count, order, inits, j);
    assert forall|name: Seq<char>| #[trigger] start.contains(name) implies after_classes.contains(
        name,
    ) by {
        let k = choose|k: int| 0 <= k < start.len() && start[k] == name;
        assert(after_classes[k] == name);
    }
    assert forall|name: Seq<char>| #[trigger]
        present(classes).contains(name) implies after_classes.contains(name) by {
        let p = present(classes);
        let k = choose|k: int| 0 <= k < p.len() && p[k] == name;
        assert(after_classes[start.len() + k] == name);
    }
    assert forall|name: Seq<char>| #[trigger]
        after_classes.contains(name) implies after_variants.contains(name) by {
        let k = choose|k: int| 0 <= k < after_classes.len() && after_classes[k] == name;
        assert(after_variants[k] == name);
    }
    assert forall|name: Seq<char>| #[trigger]
        present(variants).contains(name) implies after_variants.contains(name) by {
        let p = present(variants);
        let k = choose|k: int| 0 <= k < p.len() && p[k] == name;
        assert(after_variants[after_classes.len() + k] == name);
    }
    let a = order.index_of(i);
    let b = order.index_of(j);
    if i != j && order.contains(i) && order.contains(j) {
        assert(a != b);
    }
}

/// Exactly the types that no primitive stands for are declared, each under a
/// well-formed identifier: the name that it asks for, with underscores behind
/// it where that is taken.
pub proof fn law_class_names(lad: LadFile, options: Options, i: int)
    requires
        0 <= i < lad.types@.len(),
    ensures
        ({
            let n = naming::naming(lad, options);
            let wanted = wanted_class_name(lad.types@[i].1.identifier@);
            &&& n.types.names[i] is Some <==> declared(lad, i)
            &&& n.types.names[i] matches Some(name) ==> {
                &&& is_identifier(name)
                &&& exists|m: nat| name == #[trigger] suffixed(wanted, m)
            }
        }),
{
    let n = naming::naming(lad, options);
    let wanted = wanted_class_name(lad.types@[i].1.identifier@);
    let order = naming_order(lad);
    let classes = class_names(lad);
    let start = taken_from_the_start(n.reflect_ref is Some);
    lemma_naming_order(lad);
    lemma_allocated(wanted_classes(lad, order), start);
    lemma_allocated_present(wanted_classes(lad, order), start);
    lemma_by_type(lad.types@.len(), order, classes, i);
    let k = order.index_of(i);
    if n.types.names[i] is Some {
        let name = n.types.names[i]->0;
        assert(order.contains(order[k]));
        assert(wanted_classes(lad, order)[k] == Some(wanted));
        let m = choose|m: nat| name == #[trigger] suffixed(wanted, m);
        law_sanitized_is_identifier(lad.types@[i].1.identifier@);
        assert(is_identifier("Unknown"@)) by {
            reveal_strlit("Unknown");
        }
        assert(is_identifier(wanted));
        assert(is_identifier(name));
    }
    if declared(lad, i) {
        assert(order.contains(i));
        assert(allocated(wanted_classes(lad, order), start)[k] is Some);
    }
}

/// The id of a declared type is written as the name of its class; an id that
/// the file does not record is written as `any`.
pub proof fn law_ids_resolve(lad: LadFile, options: Options, id: Seq<char>)
    requires
        lad.wf(),
    ensures
        forall|i: int|
            0 <= i < lad.types@.len() && (#[trigger] lad.types@[i]).0@ == id
                && declared(lad, i) ==> Some(
                type_text(lad, naming::naming(lad, options).types, id),
            ) == naming::naming(lad, options).types.names[i],
        (forall|i: int| 0 <= i < lad.types@.len() ==> (#[trigger] lad.types@[i]).0@ != id)
            ==> type_text(lad, naming::naming(lad, options).types, id) == "any"@,
{
    lemma_find_first(lad, id, lad.types@.len());
    assert forall|i: int|
        0 <= i < lad.types@.len() && (#[trigger] lad.types@[i]).0@ == id
            && declared(lad, i) implies Some(
        type_text(lad, naming::naming(lad, options).types, id),
    ) == naming::naming(lad, options).types.names[i] by {
        law_class_names(lad, options, i);
        let found = type_with_id(lad, id)->0;
        assert(lad.types@[found].0@ == id);
        assert(found == i);
    }
}

/// Looking up an id finds a type that has it, if there is one.
pub proof fn lemma_find_first(lad: LadFile, id: Seq<char>, k: nat)
    requires
        k <= lad.types@.len(),
    ensures
        find_first(lad, id, k) matches Some(i) ==> 0 <= i < k && lad.types@[i].0@
            == id,
        find_first(lad, id, k) is None ==> forall|i: int|
            0 <= i < k ==> (#[trigger] lad.types@[i]).0@ != id,
    decreases k,
{
    if k > 0 {
        lemma_find_first(lad, id, (k - 1) as nat);
    }
}

/// A part of one of the sections of a file is a part of the file.
proof fn lemma_occurs_in_file(lad: LadFile, n: Naming, part: Seq<char>)
    ensures
        occurs_in(part, header_text()) || occurs_in(part, brands_text(lad, n.types)) || occurs_in(
            part,
            base_text(lad, n),
        ) || occurs_in(part, concat(class_texts(lad, n))) || occurs_in(
            part,
            concat(global_function_texts(lad, n.types)),
        ) || occurs_in(part, concat(global_lines(lad, n.types))) ==> occurs_in(part, file_text(lad, n)),
{
    let header = header_text();
    let brands = brands_text(lad, n.types);
    let base = base_text(lad, n);
    let classes = concat(class_texts(lad, n));
    let functions = concat(global_function_texts(lad, n.types));
    let globals = concat(global_lines(lad, n.types));
    if occurs_in(part, header) {
        lemma_occurs_in_left(part, header, brands);
    }
    if occurs_in(part, brands) {
        lemma_occurs_in_right(part, header, brands);
    }
    if occurs_in(part, header + brands) {
        lemma_occurs_in_left(part, header + brands, base);
    }
    if occurs_in(part, base) {
        lemma_occurs_in_right(part, header + brands, base);
    }
    if occurs_in(part, header + brands + base) {
        lemma_occurs_in_left(part, header + brands + base, classes);
    }
    if occurs_in(part, classes) {
        lemma_occurs_in_right(part, header + brands + base, classes);
    }
    if occurs_in(part, header + brands + base + classes) {
        lemma_occurs_in_left(part, header + brands + base + classes, functions);
    }
    if occurs_in(part, functions) {
        lemma_occurs_in_right(part, header + brands + base + classes, functions);
    }
    if occurs_in(part, header + brands + base + classes + functions) {
        lemma_occurs_in_left(part, header + brands + base + classes + functions, globals);
    }
    if occurs_in(part, globals) {
        lemma_occurs_in_right(part, header + brands + base + classes + functions, globals);
    }
}

/// A part of a class is a part of the file.
proof fn lemma_class_in_file(lad: LadFile, options: Options, i: int, part: Seq<char>)
    requires
        0 <= i < lad.types@.len(),
        declared(lad, i),
        occurs_in(part, class_text(lad, naming::naming(lad, options), i)),
    ensures
        occurs_in(part, luau_text(lad, options)),
{
    let n = naming::naming(lad, options);
    let order = class_order(n.types);
    law_class_names(lad, options, i);
    law_class_order(n.types);
    assert(order.contains(i));
    let k = choose|k: int| 0 <= k < order.len() && order[k] == i;
    let texts = class_texts(lad, n);
    assert(texts[k] == class_text(lad, n, i));
    lemma_occurs_in_concat(part, texts, k);
    lemma_occurs_in_file(lad, n, part);
}

/// Every type that no primitive stands for is declared: the file holds its
/// class, opened under its name, next to its aliases.
pub proof fn law_every_type_is_declared(lad: LadFile, options: Options, i: int)
    requires
        0 <= i < lad.types@.len(),
        declared(lad, i),
    ensures
        occurs_in(class_text(lad, naming::naming(lad, options), i), luau_text(lad, options)),
        occurs_in(class_head(naming::naming(lad, options), i), luau_text(lad, options)),
{
    let n = naming::naming(lad, options);
    let whole = class_text(lad, n, i);
    lemma_occurs_in_self(whole);
    lemma_class_in_file(lad, options, i, whole);
    let head = class_head(n, i);
    let doc = optional_doc_comment(option_text(lad.types@[i].1.documentation), ""@);
    lemma_occurs_in_self(head);
    lemma_occurs_in_right(head, doc, head);
    lemma_part_of_class(lad, n, i, head, doc + head);
    lemma_class_in_file(lad, options, i, head);
}

/// A part of the beginning of a class, up to its head, is a part of the class
/// with its aliases.
proof fn lemma_part_of_class(lad: LadFile, n: Naming, i: int, part: Seq<char>, beginning: Seq<char>)
    requires
        beginning == optional_doc_comment(
            option_text(lad.types@[i].1.documentation),
            ""@,
        ) + class_head(n, i),
        occurs_in(part, beginning),
    ensures
        occurs_in(part, class_text(lad, n, i)),
{
    let layout = layout_members(lad, n, i);
    let overriding = variant_name_override(lad, n, i);
    let members = concat(
        member_texts(lad, n.types, class_place(n.types, i), class_functions(lad, n.types, i)),
    );
    lemma_occurs_in_left(part, beginning, layout);
    lemma_occurs_in_left(part, beginning + layout, overriding);
    lemma_occurs_in_left(part, beginning + layout + overriding, members);
    lemma_occurs_in_left(part, beginning + layout + overriding + members, "end\n\n"@);
    lemma_occurs_in_right(
        part,
        variant_union_text(lad, n, i) + payload_text(lad, n, i),
        class_declaration(lad, n, i),
    );
}

/// Every file names every analysis flag, and so does the list of arguments.
pub proof fn law_every_flag_is_named(lad: LadFile, options: Options, f: int)
    requires
        0 <= f < 5,
    ensures
        occurs_in(flag_argument(f), luau_text(lad, options)),
        occurs_in(flag_argument(f), concat(flag_lines(Seq::empty()))),
{
    let n = naming::naming(lad, options);
    let flag = flag_argument(f);
    let prefix = "--     "@;
    let lines = flag_lines(prefix);
    lemma_occurs_in_self(flag);
    lemma_occurs_in_right(flag, prefix, flag);
    lemma_occurs_in_left(flag, prefix + flag, "\n"@);
    assert(lines[f] == prefix + flag + "\n"@);
    lemma_occurs_in_concat(flag, lines, f);
    lemma_occurs_in_right(flag, HEADER@, concat(lines));
    lemma_occurs_in_left(flag, HEADER@ + concat(lines), HEADER_END@);
    lemma_occurs_in_file(lad, n, flag);
    let bare = flag_lines(Seq::empty());
    lemma_occurs_in_right(flag, Seq::empty(), flag);
    lemma_occurs_in_left(flag, Seq::<char>::empty() + flag, "\n"@);
    assert(bare[f] == Seq::<char>::empty() + flag + "\n"@);
    lemma_occurs_in_concat(flag, bare, f);
}

/// Every brand with a registration type is declared, anchored to the class of
/// that type.
pub proof fn law_every_brand_is_declared(lad: LadFile, options: Options, b: int)
    requires
        lad.wf(),
        0 <= b < 3,
        registration_type(lad, BRANDS@[b].0@) is Some,
    ensures
        ({
            let n = naming::naming(lad, options).types;
            let i = registration_type(lad, BRANDS@[b].0@)->0;
            &&& 0 <= i < lad.types@.len() && lad.types@[i].1.identifier@ == BRANDS@[b].0@
            &&& n.names[i] is Some
            &&& occurs_in(
                "export type "@ + BRANDS@[b].1@ + "<T> = "@ + n.names[i]->0 + " & { "@
                    + BRANDS@[b].2@ + ": T }\n"@,
                luau_text(lad, options),
            )
        }),
{
    let naming = naming::naming(lad, options);
    let n = naming.types;
    let identifier = BRANDS@[b].0@;
    let i = registration_type(lad, identifier)->0;
    let owned = positions_where(lad.types@.len(), |i: int| goes_by_in_bms(lad, identifier, i));
    let all = positions_where(lad.types@.len(), |i: int| goes_by(lad, identifier, i));
    lemma_positions_where(lad.types@.len(), |i: int| goes_by_in_bms(lad, identifier, i));
    lemma_positions_where(lad.types@.len(), |i: int| goes_by(lad, identifier, i));
    lemma_least_path(lad, owned);
    lemma_least_path(lad, all);
    assert(goes_by(lad, identifier, i));
    law_class_names(lad, options, i);
    law_ids_resolve(lad, options, lad.types@[i].0@);
    assert(n.regs[b] == Some(i));
    let line = brand_line(lad, n, b);
    let first = brand_line(lad, n, 0);
    let second = brand_line(lad, n, 1);
    let third = brand_line(lad, n, 2);
    lemma_occurs_in_self(line);
    if b == 0 {
        lemma_occurs_in_left(line, first, second);
    } else if b == 1 {
        lemma_occurs_in_right(line, first, second);
    }
    if b < 2 {
        lemma_occurs_in_left(line, first + second, third);
    } else {
        lemma_occurs_in_right(line, first + second, third);
    }
    lemma_occurs_in_left(line, first + second + third, "\n"@);
    lemma_occurs_in_file(lad, naming, line);
}

/// The type with the least path is one of those given.
pub proof fn lemma_least_path(lad: LadFile, types: Seq<int>)
    ensures
        least_path(lad, types) matches Some(i) ==> types.contains(i),
        least_path(lad, types) is None ==> types.len() == 0,
    decreases types.len(),
{
    if types.len() > 0 {
        let front = types.drop_last();
        lemma_least_path(lad, front);
        assert(types[types.len() - 1] == types.last());
        if least_path(lad, front) is Some {
            let i = least_path(lad, front)->0;
            let k = choose|k: int| 0 <= k < front.len() && front[k] == i;
            assert(types[k] == i);
        }
    }
}

/// Exactly the declared enums with a variant export a variant-name union, and
/// exactly the declared types with something to fill in export a payload
/// alias, unless those are left out.
pub proof fn law_aliases(lad: LadFile, options: Options, i: int)
    requires
        0 <= i < lad.types@.len(),
    ensures
        ({
            let n = naming::naming(lad, options);
            let layout = lad.types@[i].1.layout;
            &&& n.variant_aliases[i] is Some <==> declared(lad, i)
                && is_inhabited_enum(layout)
            &&& n.init_aliases[i] is Some <==> options.init_types && declared(
                lad,
                i,
            ) && has_payload(layout)
        }),
{
    let order = naming_order(lad);
    let classes = class_names(lad);
    let variants = variant_alias_names(lad);
    let inits = init_alias_names(lad, options.init_types);
    lemma_naming_order(lad);
    lemma_allocated_present(wanted_variant_aliases(lad, order, classes), taken_after_classes(lad));
    lemma_allocated_present(
        wanted_init_aliases(lad, order, classes, options.init_types),
        taken_after_variants(lad),
    );
    lemma_by_type(lad.types@.len(), order, variants, i);
    lemma_by_type(lad.types@.len(), order, inits, i);
    if order.contains(i) {
        let k = order.index_of(i);
        assert(variants[k] is Some <==> wanted_variant_aliases(lad, order, classes)[k] is Some);
        assert(inits[k] is Some <==> wanted_init_aliases(
            lad,
            order,
            classes,
            options.init_types,
        )[k] is Some);
    }
}

/// Leaving the payload aliases out takes them out and disturbs nothing else:
/// classes come in the same order with the same declarations and variant-name
/// unions, and everything outside of classes is the same.
pub proof fn law_without_init_types(lad: LadFile, i: int)
    requires
        0 <= i < lad.types@.len(),
    ensures
        ({
            let with = naming::naming(lad, Options { init_types: true });
            let without = naming::naming(lad, Options { init_types: false });
            &&& class_text(lad, without, i) == variant_union_text(
                lad,
                with,
                i,
            ) + class_declaration(lad, with, i)
            &&& class_order(without.types) == class_order(with.types)
            &&& brands_text(lad, without.types) == brands_text(lad, with.types)
            &&& base_text(lad, without) == base_text(lad, with)
            &&& global_function_texts(lad, without.types)
                == global_function_texts(lad, with.types)
            &&& global_lines(lad, without.types) == global_lines(lad, with.types)
        }),
{
    let with = naming::naming(lad, Options { init_types: true });
    let without = naming::naming(lad, Options { init_types: false });
    law_aliases(lad, Options { init_types: false }, i);
    assert(with.types == without.types);
    let union_text = variant_union_text(lad, with, i);
    assert(union_text + Seq::<char>::empty() =~= union_text);
}

/// A part of the members of a class is a part of the file.
proof fn lemma_member_in_file(lad: LadFile, options: Options, i: int, part: Seq<char>)
    requires
        0 <= i < lad.types@.len(),
        declared(lad, i),
        occurs_in(
            part,
            concat(
                member_texts(
                    lad,
                    naming::naming(lad, options).types,
                    class_place(naming::naming(lad, options).types, i),
                    class_functions(lad, naming::naming(lad, options).types, i),
                ),
            ),
        ),
    ensures
        occurs_in(part, luau_text(lad, options)),
{
    let n = naming::naming(lad, options);
    let members = concat(
        member_texts(lad, n.types, class_place(n.types, i), class_functions(lad, n.types, i)),
    );
    let beginning = optional_doc_comment(
        option_text(lad.types@[i].1.documentation),
        ""@,
    ) + class_head(n, i) + layout_members(lad, n, i)
        + variant_name_override(lad, n, i);
    lemma_occurs_in_right(part, beginning, members);
    lemma_occurs_in_left(part, beginning + members, "end\n\n"@);
    lemma_occurs_in_right(
        part,
        variant_union_text(lad, n, i) + payload_text(lad, n, i),
        class_declaration(lad, n, i),
    );
    lemma_class_in_file(lad, options, i, part);
}

/// Every function of a declared class is rendered: the file holds the member
/// that it, or a copy of it under the same name, is rendered to.
pub proof fn law_every_member_is_rendered(lad: LadFile, options: Options, i: int, j: int)
    requires
        0 <= i < lad.types@.len(),
        declared(lad, i),
        0 <= j < lad.functions@.len(),
        belongs_to(lad.functions@[j], lad.types@[i].0@),
    ensures
        ({
            let n = naming::naming(lad, options).types;
            let place = class_place(n, i);
            exists|g: int|
                0 <= g < lad.functions@.len() && belongs_to(
                    #[trigger] lad.functions@[g],
                    lad.types@[i].0@,
                ) && overload_key(lad, n, place, g)
                    == overload_key(lad, n, place, j) && callable(
                    lad.functions@[g].identifier@,
                ) == callable(lad.functions@[j].identifier@)
                    && occurs_in(
                    member_text(lad, n, place, lad.functions@[g]),
                    luau_text(lad, options),
                )
        }),
{
    let n = naming::naming(lad, options).types;
    let place = class_place(n, i);
    let all = functions_of(lad, lad.types@[i].0@);
    let kept = class_functions(lad, n, i);
    lemma_functions_of(lad, lad.types@[i].0@);
    law_one_member_per_signature(lad, n, place, all);
    assert(all.contains(j));
    let p = choose|p: int|
        0 <= p < kept.len() && overload_key(lad, n, place, #[trigger] kept[p])
            == overload_key(lad, n, place, j);
    let g = kept[p];
    assert(kept.contains(g));
    assert(all.contains(g));
    law_identity_tells_generic(lad, n, place, lad.functions@[g], lad.functions@[j]);
    let texts = member_texts(lad, n, place, kept);
    let part = member_text(lad, n, place, lad.functions@[g]);
    assert(texts[p] == part);
    lemma_occurs_in_self(part);
    lemma_occurs_in_concat(part, texts, p);
    lemma_member_in_file(lad, options, i, part);
}

/// Every function of the reference proxy type is rendered: the file holds the
/// member of the base class that it, or a copy of it under the same name, is
/// rendered to.
pub proof fn law_every_base_member_is_rendered(lad: LadFile, options: Options, j: int)
    requires
        reference_type(lad) is Some,
        0 <= j < lad.functions@.len(),
        belongs_to(lad.functions@[j], lad.types@[reference_type(lad)->0].0@),
    ensures
        ({
            let n = naming::naming(lad, options).types;
            let place = base_place();
            exists|g: int|
                0 <= g < lad.functions@.len() && belongs_to(
                    #[trigger] lad.functions@[g],
                    lad.types@[reference_type(lad)->0].0@,
                ) && overload_key(lad, n, place, g)
                    == overload_key(lad, n, place, j) && callable(
                    lad.functions@[g].identifier@,
                ) == callable(lad.functions@[j].identifier@)
                    && occurs_in(
                    member_text(lad, n, place, lad.functions@[g]),
                    luau_text(lad, options),
                )
        }),
{
    let naming = naming::naming(lad, options);
    let n = naming.types;
    let place = base_place();
    let reference = reference_type(lad)->0;
    let all = functions_of(lad, lad.types@[reference].0@);
    let kept = base_functions(lad, n, reference);
    lemma_functions_of(lad, lad.types@[reference].0@);
    law_one_member_per_signature(lad, n, place, all);
    assert(all.contains(j));
    let p = choose|p: int|
        0 <= p < kept.len() && overload_key(lad, n, place, #[trigger] kept[p])
            == overload_key(lad, n, place, j);
    let g = kept[p];
    assert(kept.contains(g));
    assert(all.contains(g));
    law_identity_tells_generic(lad, n, place, lad.functions@[g], lad.functions@[j]);
    let texts = member_texts(lad, n, place, kept);
    let part = member_text(lad, n, place, lad.functions@[g]);
    assert(texts[p] == part);
    lemma_occurs_in_self(part);
    lemma_occurs_in_concat(part, texts, p);
    let head = "declare extern type "@ + REFLECT_REFERENCE_CLASS@ + " with\n"@;
    lemma_occurs_in_right(part, head, concat(texts));
    lemma_occurs_in_left(part, head + concat(texts), "end\n\n"@);
    lemma_occurs_in_file(lad, naming, part);
}

/// Every global function is rendered: the file holds the declaration that it,
/// or a copy of it under the same name, is rendered to.
pub proof fn law_every_global_function_is_rendered(lad: LadFile, options: Options, j: int)
    requires
        0 <= j < lad.functions@.len(),
        is_global(lad.functions@[j]),
    ensures
        ({
            let n = naming::naming(lad, options).types;
            let place = global_place();
            exists|g: int|
                0 <= g < lad.functions@.len() && is_global(
                    #[trigger] lad.functions@[g],
                ) && overload_key(lad, n, place, g)
                    == overload_key(lad, n, place, j) && callable(
                    lad.functions@[g].identifier@,
                ) == callable(lad.functions@[j].identifier@)
                    && occurs_in(
                    global_function_text(lad, n, lad.functions@[g]),
                    luau_text(lad, options),
                )
        }),
{
    let naming = naming::naming(lad, options);
    let n = naming.types;
    let place = global_place();
    let all = global_functions(lad);
    let kept = overloads(lad, n, place, all);
    lemma_positions_where(lad.functions@.len(), |j: int| is_global(lad.functions@[j]));
    law_one_member_per_signature(lad, n, place, all);
    assert(all.contains(j));
    let p = choose|p: int|
        0 <= p < kept.len() && overload_key(lad, n, place, #[trigger] kept[p])
            == overload_key(lad, n, place, j);
    let g = kept[p];
    assert(kept.contains(g));
    assert(all.contains(g));
    law_identity_tells_generic(lad, n, place, lad.functions@[g], lad.functions@[j]);
    let texts = global_function_texts(lad, n);
    let part = global_function_text(lad, n, lad.functions@[g]);
    assert(texts[p] == part);
    lemma_occurs_in_self(part);
    lemma_occurs_in_concat(part, texts, p);
    lemma_occurs_in_file(lad, naming, part);
}

/// Every global instance whose name can be bound is declared, unless it is an
/// untyped primitive.
pub proof fn law_every_global_is_declared(lad: LadFile, options: Options, k: int)
    requires
        0 <= k < lad.globals@.len(),
        is_shown(lad, naming::naming(lad, options).types, k),
    ensures
        occurs_in(global_line(lad, naming::naming(lad, options).types, k), luau_text(lad, options)),
{
    let naming = naming::naming(lad, options);
    let n = naming.types;
    let shown = shown_globals(lad, n);
    let names = shown.map_values(|k: int| instance_name(lad, k));
    let order = globals_order(lad, n);
    lemma_positions_where(lad.globals@.len(), |k: int| is_shown(lad, n, k));
    lemma_sorted_contains(shown, plain_keys(names));
    assert(shown.contains(k));
    assert(order.contains(k));
    let p = choose|p: int| 0 <= p < order.len() && order[p] == k;
    let texts = global_lines(lad, n);
    let part = global_line(lad, n, k);
    assert(texts[p] == part);
    lemma_occurs_in_self(part);
    lemma_occurs_in_concat(part, texts, p);
    lemma_occurs_in_file(lad, naming, part);
}

/// The typed `variant_name` of an enum is never made up: where there is one,
/// the enum is declared and inhabited, the file records the function behind
/// it, and the enum has no member of its own by that name.
pub proof fn law_variant_name_is_backed(lad: LadFile, options: Options, i: int)
    requires
        0 <= i < lad.types@.len(),
        variant_name_override(lad, naming::naming(lad, options), i).len() > 0,
    ensures
        declared(lad, i),
        is_inhabited_enum(lad.types@[i].1.layout),
        reference_type(lad) matches Some(r) && exists|j: int|
            0 <= j < lad.functions@.len() && backs_variant_name(
                #[trigger] lad.functions@[j],
                lad.types@[r].0@,
            ),
        forall|j: int|
            0 <= j < lad.functions@.len() && belongs_to(
                #[trigger] lad.functions@[j],
                lad.types@[i].0@,
            ) ==> callable(lad.functions@[j].identifier@) != Some("variant_name"@),
{
    law_aliases(lad, options, i);
}

/// A binding whose name is a keyword is skipped, wherever it would stand: no
/// name is made up for it.
pub proof fn law_keywords_are_skipped(
    lad: LadFile,
    options: Options,
    place: PlaceView,
    j: int,
    k: int,
)
    ensures
        reserved(sanitized(lad.functions@[j].identifier@)) ==> {
            let n = naming::naming(lad, options).types;
            &&& member_text(lad, n, place, lad.functions@[j]) == Seq::<
                char,
            >::empty()
            &&& global_function_text(lad, n, lad.functions@[j]) == Seq::<
                char,
            >::empty()
        },
        reserved(sanitized(lad.globals@[k].0@))
            ==> !is_shown(lad, naming::naming(lad, options).types, k),
{
    law_callable_is_honest(lad.functions@[j].identifier@);
    law_callable_is_honest(lad.globals@[k].0@);
}

/// The member of a class that is rendered for several copies is the
/// best-documented of them, and the first of those in the file.
pub proof fn law_rendered_member_is_best_documented(
    lad: LadFile,
    options: Options,
    i: int,
    g: int,
    f: int,
)
    requires
        0 <= i < lad.types@.len(),
        class_functions(lad, naming::naming(lad, options).types, i).contains(g),
        0 <= f < lad.functions@.len(),
        belongs_to(lad.functions@[f], lad.types@[i].0@),
        ({
            let n = naming::naming(lad, options).types;
            let place = class_place(n, i);
            overload_key(lad, n, place, g) == overload_key(lad, n, place, f)
        }),
    ensures
        documentation_score(lad.functions@[g])
            > documentation_score(lad.functions@[f]) || (
        documentation_score(lad.functions@[g])
            == documentation_score(lad.functions@[f]) && g <= f),
{
    let n = naming::naming(lad, options).types;
    lemma_functions_of(lad, lad.types@[i].0@);
    let all = functions_of(lad, lad.types@[i].0@);
    assert(all.contains(f));
    law_best_documented_copy_is_kept(lad, n, class_place(n, i), all, g, f);
}

} // verus!
