//! How functions are declared: what they are called with, what they are called
//! on, and what is said of them.

use vstd::prelude::*;

use crate::docs::{flattened, lines, optional_doc_comment, trimmed_end};
use crate::ident::{callable, sanitized};
use crate::lad::{LadArgument, LadFieldOrVariableKind, LadFile, LadFunction, LadFunctionNamespace};
use crate::laws::kinds::{law_kinds, law_other_ids};
use crate::laws::law_class_names;
use crate::laws::writing::law_doc_comment_lines;
use crate::members::{
    functions_of, global_function_text, global_functions, is_global, lemma_functions_of,
    listed_params, member_text,
};
use crate::naming::{self, lemma_positions_where, positions_where, TypeNames};
use crate::options::Options;
use crate::order::{law_sorted_positions, precedes, sorted_positions};
use crate::overloads::{
    called_on_receiver, collapsed, documentation_score, has_copy, lemma_collapsed, listed_args,
    overload_key, overload_sort_keys, overloads, PlaceView, return_text, signature_text,
    treatment_in,
};
use crate::signature::{
    argument_label, generic_treatment, labelled_params, param_docs, param_types, script_visible,
    signature_docs,
};
use crate::text::{concat, decimal, joined, lemma_text_le_reflexive, option_text, text_le};
use crate::types::kind_text;

verus! {

/// Scripts pass every argument but a call context in front.
pub proof fn law_passed_arguments(func: LadFunction)
    ensures
        script_visible(func) == if func.arguments@.len() > 0 && (
        func.arguments@[0].kind matches LadFieldOrVariableKind::Primitive(p) && p
            is FunctionCallContext) {
            func.arguments@.skip(1)
        } else {
            func.arguments@
        },
{
}

/// A function is called on a receiver exactly if it is rendered on a class and
/// the first argument that scripts pass is written as that class, or, on the
/// base class, is the reference primitive. The receiver is not listed as an
/// argument; everything else that scripts pass is.
pub proof fn law_receivers(lad: LadFile, n: TypeNames, place: PlaceView, func: LadFunction)
    ensures
        ({
            let passed = script_visible(func);
            let on_receiver = place.owner matches Some(owner) && passed.len() > 0 && (kind_text(
                lad,
                n,
                passed[0].kind,
                false,
            ) == owner || (place.is_base && (
            passed[0].kind matches LadFieldOrVariableKind::Primitive(p) && p
                is ReflectReference)));
            &&& called_on_receiver(lad, n, place, func) == on_receiver
            &&& listed_args(lad, n, place, func) == if on_receiver {
                passed.skip(1)
            } else {
                passed
            }
        }),
{
}

/// A function of a class that takes the class itself first, by reference or by
/// value, is called on a receiver, and the arguments behind it are listed.
pub proof fn law_self_is_the_receiver(lad: LadFile, options: Options, i: int, func: LadFunction)
    requires
        lad.wf(),
        0 <= i < lad.types@.len(),
        lad.types@[i].1.metadata.mapped_to_primitive_kind is None,
        script_visible(func).len() > 0,
        match script_visible(func)[0].kind {
            LadFieldOrVariableKind::Ref(id) => id@ == lad.types@[i].0@,
            LadFieldOrVariableKind::Mut(id) => id@ == lad.types@[i].0@,
            LadFieldOrVariableKind::Val(id) => id@ == lad.types@[i].0@,
            _ => false,
        },
    ensures
        ({
            let n = naming::naming(lad, options).types;
            let place = PlaceView { owner: n.names[i], is_base: false };
            &&& called_on_receiver(lad, n, place, func)
            &&& listed_args(lad, n, place, func) == script_visible(func).skip(1)
        }),
{
    let n = naming::naming(lad, options).types;
    let id = lad.types@[i].0@;
    law_class_names(lad, options, i);
    law_other_ids(lad, n, id, i);
    law_kinds(lad, n, script_visible(func)[0].kind, false);
}

/// A signature is generic exactly in the shape that the law of generic
/// signatures says, and never without arguments.
pub proof fn law_treatment(lad: LadFile, n: TypeNames, place: PlaceView, func: LadFunction)
    ensures
        treatment_in(lad, n, place, func) == generic_treatment(
            lad,
            n,
            listed_args(lad, n, place, func),
            func.return_type.kind,
        ),
        listed_args(lad, n, place, func).len() == 0 ==> treatment_in(lad, n, place, func) is None,
        return_text(lad, n, place, func) == kind_text(
            lad,
            n,
            func.return_type.kind,
            treatment_in(lad, n, place, func) is Some,
        ),
{
}

/// A parameter is labelled with the name of its argument where that can be
/// bound, else with `arg` and its position.
pub proof fn law_labels(arg: LadArgument, index: nat)
    ensures
        argument_label(arg, index as int) == match arg.name {
            Some(name) => match callable(name@) {
                Some(label) => label,
                None => "arg"@ + decimal(index),
            },
            None => "arg"@ + decimal(index),
        },
{
}

/// What is listed for a function: the type of each argument, as the brand where
/// the generic treatment puts one, and each with its label in front.
proof fn lemma_listed(
    lad: LadFile,
    n: TypeNames,
    args: Seq<LadArgument>,
    generic: Option<(int, Seq<char>)>,
)
    ensures
        param_types(lad, n, args, generic) == Seq::new(
            args.len(),
            |k: int|
                match generic {
                    Some((at, brand)) => if at == k {
                        brand
                    } else {
                        kind_text(lad, n, args[k].kind, true)
                    },
                    None => kind_text(lad, n, args[k].kind, false),
                },
        ),
        labelled_params(lad, n, args, generic) == Seq::new(
            args.len(),
            |k: int|
                argument_label(args[k], k) + ": "@ + match generic {
                    Some((at, brand)) => if at == k {
                        brand
                    } else {
                        kind_text(lad, n, args[k].kind, true)
                    },
                    None => kind_text(lad, n, args[k].kind, false),
                },
        ),
{
    assert(param_types(lad, n, args, generic) =~= Seq::new(
        args.len(),
        |k: int|
            match generic {
                Some((at, brand)) => if at == k {
                    brand
                } else {
                    kind_text(lad, n, args[k].kind, true)
                },
                None => kind_text(lad, n, args[k].kind, false),
            },
    ));
    assert(labelled_params(lad, n, args, generic) =~= Seq::new(
        args.len(),
        |k: int|
            argument_label(args[k], k) + ": "@ + match generic {
                Some((at, brand)) => if at == k {
                    brand
                } else {
                    kind_text(lad, n, args[k].kind, true)
                },
                None => kind_text(lad, n, args[k].kind, false),
            },
    ));
}

/// A function is identified by its name, by whether it is generic, by the types
/// of its receiver and arguments, and by its return type, and by nothing else.
pub proof fn law_identity(lad: LadFile, n: TypeNames, place: PlaceView, func: LadFunction)
    ensures
        ({
            let args = listed_args(lad, n, place, func);
            let generic = treatment_in(lad, n, place, func);
            let types = Seq::new(
                args.len(),
                |k: int|
                    match generic {
                        Some((at, brand)) => if at == k {
                            brand
                        } else {
                            kind_text(lad, n, args[k].kind, true)
                        },
                        None => kind_text(lad, n, args[k].kind, false),
                    },
            );
            signature_text(lad, n, place, func) == sanitized(func.identifier@) + (if generic
                is Some {
                "<T>"@
            } else {
                ""@
            }) + "("@ + joined(
                if called_on_receiver(lad, n, place, func) {
                    seq![place.owner->0] + types
                } else {
                    types
                },
                ", "@,
            ) + ") -> "@ + return_text(lad, n, place, func)
        }),
{
    lemma_listed(
        lad,
        n,
        listed_args(lad, n, place, func),
        treatment_in(lad, n, place, func),
    );
}

/// What the reader is told by a copy of a function is counted: the arguments
/// with a name, those with documentation, its own documentation, and that of
/// what it returns.
pub proof fn law_documentation_score(func: LadFunction)
    ensures
        documentation_score(func) == script_visible(func).filter(
            |arg: LadArgument| arg.name is Some,
        ).len() + script_visible(func).filter(
            |arg: LadArgument| arg.documentation is Some,
        ).len() + (if func.documentation is Some {
            1int
        } else {
            0int
        }) + (if func.return_type.documentation is Some {
            1int
        } else {
            0int
        }),
{
    let args = script_visible(func);
    lemma_count(args, |arg: LadArgument| arg.name is Some, |i: int| args[i].name is Some);
    lemma_count(
        args,
        |arg: LadArgument| arg.documentation is Some,
        |i: int| args[i].documentation is Some,
    );
}

/// Positions that satisfy a predicate are as many as the items that do.
proof fn lemma_count(
    args: Seq<LadArgument>,
    item: spec_fn(LadArgument) -> bool,
    position: spec_fn(int) -> bool,
)
    requires
        forall|i: int| 0 <= i < args.len() ==> #[trigger] position(i) == item(args[i]),
    ensures
        positions_where(args.len(), position).len() == args.filter(item).len(),
    decreases args.len(),
{
    reveal(Seq::filter);
    if args.len() > 0 {
        let front = args.drop_last();
        assert forall|i: int| 0 <= i < front.len() implies #[trigger] position(i) == item(
            front[i],
        ) by {
            assert(front[i] == args[i]);
        }
        lemma_count(front, item, position);
        assert(position(args.len() - 1) == item(args[args.len() - 1]));
    }
}

/// The functions of a type are those whose namespace is its id, and the global
/// functions those in the global one; both are taken in the file's order.
pub proof fn law_functions_by_namespace(lad: LadFile, id: Seq<char>, j: int)
    ensures
        functions_of(lad, id).contains(j) <==> 0 <= j < lad.functions@.len() && (
        lad.functions@[j].namespace matches LadFunctionNamespace::Type(t) && t@ == id),
        global_functions(lad).contains(j) <==> 0 <= j < lad.functions@.len() && (
        lad.functions@[j].namespace is Global),
        forall|a: int, b: int|
            0 <= a < b < functions_of(lad, id).len() ==> #[trigger] functions_of(lad, id)[a]
                < #[trigger] functions_of(lad, id)[b],
        forall|a: int, b: int|
            0 <= a < b < global_functions(lad).len() ==> #[trigger] global_functions(lad)[a]
                < #[trigger] global_functions(lad)[b],
{
    lemma_functions_of(lad, id);
    lemma_positions_where(lad.functions@.len(), |j: int| is_global(lad.functions@[j]));
}

/// Overloads are rendered in order of their names, and those of one name
/// outside of the base class in order of their identities.
pub proof fn law_overload_order(
    lad: LadFile,
    n: TypeNames,
    place: PlaceView,
    fns: Seq<int>,
    p: int,
    q: int,
)
    requires
        0 <= p < q < overloads(lad, n, place, fns).len(),
    ensures
        ({
            let f = overloads(lad, n, place, fns)[p];
            let g = overloads(lad, n, place, fns)[q];
            let a = lad.functions@[f].identifier@;
            let b = lad.functions@[g].identifier@;
            &&& text_le(a, b)
            &&& a == b && !place.is_base ==> text_le(
                signature_text(lad, n, place, lad.functions@[f]),
                signature_text(lad, n, place, lad.functions@[g]),
            )
        }),
{
    let kept = collapsed(lad, n, place, fns);
    let keys = overload_sort_keys(lad, n, place, kept);
    let positions = sorted_positions(keys);
    law_sorted_positions(keys);
    assert(positions.contains(positions[p]));
    assert(positions.contains(positions[q]));
    assert(precedes(keys, positions[p], positions[q]));
    let f = overloads(lad, n, place, fns)[p];
    let g = overloads(lad, n, place, fns)[q];
    assert(f == kept[positions[p]] && g == kept[positions[q]]);
    lemma_text_le_reflexive(lad.functions@[f].identifier@);
    lemma_text_le_reflexive(overload_key(lad, n, place, f));
}

/// What is kept comes in the order of the first copies.
proof fn lemma_collapsed_order(
    lad: LadFile,
    n: TypeNames,
    place: PlaceView,
    fns: Seq<int>,
    s: int,
    t: int,
)
    requires
        forall|a: int, b: int| 0 <= a < b < fns.len() ==> #[trigger] fns[a] < #[trigger] fns[b],
        0 <= s < t < collapsed(lad, n, place, fns).len(),
    ensures
        ({
            let kept = collapsed(lad, n, place, fns);
            exists|a: int| #[trigger]
                fns.contains(a) && overload_key(lad, n, place, a) == overload_key(
                    lad,
                    n,
                    place,
                    kept[s],
                ) && forall|b: int| #[trigger]
                    fns.contains(b) && overload_key(lad, n, place, b) == overload_key(
                        lad,
                        n,
                        place,
                        kept[t],
                    ) ==> a < b
        }),
    decreases fns.len(),
{
    let rest = fns.drop_last();
    let last = fns.last();
    assert forall|a: int, b: int| 0 <= a < b < rest.len() implies #[trigger] rest[a]
        < #[trigger] rest[b] by {
        assert(fns[a] < fns[b]);
    }
    let front = collapsed(lad, n, place, rest);
    let kept = collapsed(lad, n, place, fns);
    lemma_collapsed(lad, n, place, rest);
    assert forall|x: int| #[trigger] rest.contains(x) implies fns.contains(x) && x < last by {
        let k = choose|k: int| 0 <= k < rest.len() && rest[k] == x;
        assert(fns[k] == x && fns[k] < fns[fns.len() - 1]);
    }
    assert forall|x: int| #[trigger] fns.contains(x) implies rest.contains(x) || x == last by {
        let k = choose|k: int| 0 <= k < fns.len() && fns[k] == x;
        if k < rest.len() {
            assert(rest[k] == x);
        }
    }
    assert(overload_key(lad, n, place, kept[s]) == overload_key(lad, n, place, front[s]));
    if t < front.len() {
        assert(overload_key(lad, n, place, kept[t]) == overload_key(lad, n, place, front[t]));
        lemma_collapsed_order(lad, n, place, rest, s, t);
        let a = choose|a: int| #[trigger]
            rest.contains(a) && overload_key(lad, n, place, a) == overload_key(
                lad,
                n,
                place,
                front[s],
            ) && forall|b: int| #[trigger]
                rest.contains(b) && overload_key(lad, n, place, b) == overload_key(
                    lad,
                    n,
                    place,
                    front[t],
                ) ==> a < b;
        assert(fns.contains(a));
    } else {
        assert(kept[t] == last);
        let a = front[s];
        assert(front.contains(a));
        assert(rest.contains(a));
        assert(fns.contains(a));
        assert forall|b: int| #[trigger]
            fns.contains(b) && overload_key(lad, n, place, b) == overload_key(
                lad,
                n,
                place,
                last,
            ) implies a < b by {
            if rest.contains(b) {
                assert(has_copy(lad, n, place, front, b));
                assert(has_copy(lad, n, place, front, last));
            }
        }
    }
}

/// On the base class, overloads of one name are rendered in the order in which
/// their first copies come in the file.
pub proof fn law_base_keeps_the_order_of_the_file(
    lad: LadFile,
    n: TypeNames,
    place: PlaceView,
    fns: Seq<int>,
    p: int,
    q: int,
)
    requires
        place.is_base,
        forall|a: int, b: int| 0 <= a < b < fns.len() ==> #[trigger] fns[a] < #[trigger] fns[b],
        0 <= p < q < overloads(lad, n, place, fns).len(),
        lad.functions@[overloads(lad, n, place, fns)[p]].identifier@
            == lad.functions@[overloads(lad, n, place, fns)[q]].identifier@,
    ensures
        exists|a: int| #[trigger]
            fns.contains(a) && signature_text(lad, n, place, lad.functions@[a]) == signature_text(
                lad,
                n,
                place,
                lad.functions@[overloads(lad, n, place, fns)[p]],
            ) && forall|b: int| #[trigger]
                fns.contains(b) && signature_text(lad, n, place, lad.functions@[b])
                    == signature_text(
                    lad,
                    n,
                    place,
                    lad.functions@[overloads(lad, n, place, fns)[q]],
                ) ==> a < b,
{
    let kept = collapsed(lad, n, place, fns);
    let keys = overload_sort_keys(lad, n, place, kept);
    let positions = sorted_positions(keys);
    law_sorted_positions(keys);
    assert(positions.contains(positions[p]));
    assert(positions.contains(positions[q]));
    assert(precedes(keys, positions[p], positions[q]));
    assert(keys[positions[p]] == keys[positions[q]]);
    lemma_collapsed_order(lad, n, place, fns, positions[p], positions[q]);
    let f = overloads(lad, n, place, fns)[p];
    let g = overloads(lad, n, place, fns)[q];
    assert(f == kept[positions[p]] && g == kept[positions[q]]);
    let a = choose|a: int| #[trigger]
        fns.contains(a) && overload_key(lad, n, place, a) == overload_key(lad, n, place, f)
            && forall|b: int| #[trigger]
            fns.contains(b) && overload_key(lad, n, place, b) == overload_key(lad, n, place, g)
                ==> a < b;
    assert(fns.contains(a));
    assert forall|b: int| #[trigger]
        fns.contains(b) && signature_text(lad, n, place, lad.functions@[b]) == signature_text(
            lad,
            n,
            place,
            lad.functions@[g],
        ) implies a < b by {
        assert(overload_key(lad, n, place, b) == overload_key(lad, n, place, g));
    }
}

/// What is said of the arguments of a function and of what it returns: one line
/// for each argument that has documentation, by the argument's label, and one
/// for what is returned.
proof fn lemma_said(
    indent: Seq<char>,
    param: Seq<char>,
    returned: Seq<char>,
    args: Seq<LadArgument>,
    ret: LadArgument,
)
    requires
        param == indent + "-- @param "@,
        returned == indent + "-- @return "@,
    ensures
        signature_docs(indent, args, ret) == concat(
            Seq::new(
                args.len(),
                |k: int|
                    match flattened(option_text(args[k].documentation)) {
                        Some(doc) => param + argument_label(args[k], k) + " - "@ + doc + "\n"@,
                        None => Seq::empty(),
                    },
            ),
        ) + (match flattened(option_text(ret.documentation)) {
            Some(doc) => match ret.name {
                Some(name) => match callable(name@) {
                    Some(label) => returned + label + " - "@ + doc + "\n"@,
                    None => returned + doc + "\n"@,
                },
                None => returned + doc + "\n"@,
            },
            None => Seq::empty(),
        }),
{
    assert(param_docs(indent, args) =~= Seq::new(
        args.len(),
        |k: int|
            match flattened(option_text(args[k].documentation)) {
                Some(doc) => param + argument_label(args[k], k) + " - "@ + doc + "\n"@,
                None => Seq::empty(),
            },
    ));
}

/// The lines of a doc comment begin with its indent.
pub proof fn lemma_comment(documentation: Option<String>, indent: Seq<char>, start: Seq<char>)
    requires
        start == indent + "-- "@,
    ensures
        optional_doc_comment(option_text(documentation), indent) == match documentation {
            Some(doc) => concat(
                Seq::new(
                    lines(doc@).len(),
                    |k: int| start + trimmed_end(lines(doc@)[k]) + "\n"@,
                ),
            ),
            None => Seq::empty(),
        },
{
    if let Some(doc) = documentation {
        law_doc_comment_lines(doc@, indent);
        assert(Seq::new(
            lines(doc@).len(),
            |k: int| indent + "-- "@ + trimmed_end(lines(doc@)[k]) + "\n"@,
        ) =~= Seq::new(
            lines(doc@).len(),
            |k: int| start + trimmed_end(lines(doc@)[k]) + "\n"@,
        ));
    }
}

/// How comments begin with and without an indent.
pub proof fn lemma_comment_starts()
    ensures
        ""@ + "-- "@ == "-- "@,
        ""@ + "-- @param "@ == "-- @param "@,
        ""@ + "-- @return "@ == "-- @return "@,
        "\t"@ + "-- "@ == "\t-- "@,
        "\t"@ + "-- @param "@ == "\t-- @param "@,
        "\t"@ + "-- @return "@ == "\t-- @return "@,
{
    reveal_strlit("");
    reveal_strlit("\t");
    reveal_strlit("-- ");
    reveal_strlit("-- @param ");
    reveal_strlit("-- @return ");
    reveal_strlit("\t-- ");
    reveal_strlit("\t-- @param ");
    reveal_strlit("\t-- @return ");
    assert(""@ + "-- "@ =~= "-- "@);
    assert(""@ + "-- @param "@ =~= "-- @param "@);
    assert(""@ + "-- @return "@ =~= "-- @return "@);
    assert("\t"@ + "-- "@ =~= "\t-- "@);
    assert("\t"@ + "-- @param "@ =~= "\t-- @param "@);
    assert("\t"@ + "-- @return "@ =~= "\t-- @return "@);
}

/// A member of a class is its documentation, line by line, what is said of its
/// arguments and of what it returns, and its declaration: a method if it has a
/// receiver, a function field if it has none, and a function field that names
/// its receiver if it has one and is generic. Without a name that can be bound
/// there is no member.
#[verifier::rlimit(40)]
pub proof fn law_member(
    lad: LadFile,
    n: TypeNames,
    place: PlaceView,
    func: LadFunction,
    args: Seq<LadArgument>,
    generic: Option<(int, Seq<char>)>,
    params: Seq<char>,
    ret: Seq<char>,
)
    requires
        args == listed_args(lad, n, place, func),
        generic == treatment_in(lad, n, place, func),
        params == joined(
            Seq::new(
                args.len(),
                |k: int|
                    argument_label(args[k], k) + ": "@ + match generic {
                        Some((at, brand)) => if at == k {
                            brand
                        } else {
                            kind_text(lad, n, args[k].kind, true)
                        },
                        None => kind_text(lad, n, args[k].kind, false),
                    },
            ),
            ", "@,
        ),
        ret == kind_text(lad, n, func.return_type.kind, generic is Some),
    ensures
        callable(func.identifier@) is None ==> member_text(lad, n, place, func) == Seq::<
            char,
        >::empty(),
        callable(func.identifier@) matches Some(name) ==> member_text(lad, n, place, func)
            == (match func.documentation {
            Some(doc) => concat(
                Seq::new(
                    lines(doc@).len(),
                    |k: int| "\t-- "@ + trimmed_end(lines(doc@)[k]) + "\n"@,
                ),
            ),
            None => Seq::empty(),
        }) + (concat(
            Seq::new(
                args.len(),
                |k: int|
                    match flattened(option_text(args[k].documentation)) {
                        Some(doc) => "\t-- @param "@ + argument_label(args[k], k) + " - "@
                            + doc + "\n"@,
                        None => Seq::empty(),
                    },
            ),
        ) + (match flattened(option_text(func.return_type.documentation)) {
            Some(doc) => match func.return_type.name {
                Some(own) => match callable(own@) {
                    Some(label) => "\t-- @return "@ + label + " - "@ + doc + "\n"@,
                    None => "\t-- @return "@ + doc + "\n"@,
                },
                None => "\t-- @return "@ + doc + "\n"@,
            },
            None => Seq::empty(),
        })) + (if called_on_receiver(lad, n, place, func) && generic is None {
            "\tfunction "@ + name + "(self"@ + (if params.len() > 0 {
                ", "@
            } else {
                ""@
            }) + params + "): "@ + ret + "\n"@
        } else if called_on_receiver(lad, n, place, func) {
            "\t"@ + name + ": <T>(self: "@ + place.owner->0 + (if params.len() > 0 {
                ", "@
            } else {
                ""@
            }) + params + ") -> "@ + ret + "\n"@
        } else {
            "\t"@ + name + ": "@ + (if generic is Some {
                "<T>"@
            } else {
                ""@
            }) + "("@ + params + ") -> "@ + ret + "\n"@
        }),
{
    lemma_listed(lad, n, args, generic);
    lemma_comment_starts();
    lemma_said("\t"@, "\t-- @param "@, "\t-- @return "@, args, func.return_type);
    lemma_comment(func.documentation, "\t"@, "\t-- "@);
    assert(params == listed_params(lad, n, place, func));
}

/// A global function is its documentation, line by line, what is said of its
/// arguments and of what it returns, and its declaration. Without a name that
/// can be bound there is none.
#[verifier::rlimit(40)]
pub proof fn law_global_function(
    lad: LadFile,
    n: TypeNames,
    func: LadFunction,
    args: Seq<LadArgument>,
    generic: Option<(int, Seq<char>)>,
)
    requires
        args == script_visible(func),
        generic == generic_treatment(lad, n, args, func.return_type.kind),
    ensures
        callable(func.identifier@) is None ==> global_function_text(lad, n, func) == Seq::<
            char,
        >::empty(),
        callable(func.identifier@) matches Some(name) ==> global_function_text(lad, n, func)
            == (match func.documentation {
            Some(doc) => concat(
                Seq::new(
                    lines(doc@).len(),
                    |k: int| "-- "@ + trimmed_end(lines(doc@)[k]) + "\n"@,
                ),
            ),
            None => Seq::empty(),
        }) + (concat(
            Seq::new(
                args.len(),
                |k: int|
                    match flattened(option_text(args[k].documentation)) {
                        Some(doc) => "-- @param "@ + argument_label(args[k], k) + " - "@
                            + doc + "\n"@,
                        None => Seq::empty(),
                    },
            ),
        ) + (match flattened(option_text(func.return_type.documentation)) {
            Some(doc) => match func.return_type.name {
                Some(own) => match callable(own@) {
                    Some(label) => "-- @return "@ + label + " - "@ + doc + "\n"@,
                    None => "-- @return "@ + doc + "\n"@,
                },
                None => "-- @return "@ + doc + "\n"@,
            },
            None => Seq::empty(),
        })) + ("declare function "@ + name + (if generic is Some {
            "<T>"@
        } else {
            ""@
        }) + "("@ + joined(
            Seq::new(
                args.len(),
                |k: int|
                    argument_label(args[k], k) + ": "@ + match generic {
                        Some((at, brand)) => if at == k {
                            brand
                        } else {
                            kind_text(lad, n, args[k].kind, true)
                        },
                        None => kind_text(lad, n, args[k].kind, false),
                    },
            ),
            ", "@,
        ) + "): "@ + kind_text(lad, n, func.return_type.kind, generic is Some) + "\n\n"@),
{
    lemma_listed(lad, n, args, generic);
    lemma_comment_starts();
    lemma_said(""@, "-- @param "@, "-- @return "@, args, func.return_type);
    lemma_comment(func.documentation, ""@, "-- "@);
}

} // verus!
