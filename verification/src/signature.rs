//! Signatures: which arguments scripts pass, what they are called, and when a
//! signature becomes generic.

use vstd::prelude::*;
use vstd::slice::slice_subrange;

use crate::converter::Converter;
use crate::docs::{doc_line, flattened};
use crate::ident::{callable, callable_name};
use crate::kinds::{
    contains_reflect_reference, context_primitive, holds_reference, is_context, is_reference,
    reference_primitive,
};
use crate::lad::{LadArgument, LadFieldOrVariableKind, LadFile, LadFunction};
use crate::naming::{lemma_positions_where, positions_where, TypeNames};
use crate::text::{
    concat, decimal, join, joined, lemma_concat_take, lemma_take_push, lemma_texts_push,
    option_text, same_text, texts, to_decimal,
};
use crate::types::{branded, kind_text};

verus! {

/// A function's script-visible arguments: all but a leading call context.
pub open spec fn script_visible(func: LadFunction) -> Seq<LadArgument> {
    if func.arguments@.len() > 0 && context_primitive(func.arguments@[0].kind) {
        func.arguments@.skip(1)
    } else {
        func.arguments@
    }
}

/// Whether a function of the class `owner` is called with a receiver: its
/// first script-visible argument is of the owning type, or, on the base class,
/// the reference primitive.
pub open spec fn has_receiver(
    lad: LadFile,
    n: TypeNames,
    func: LadFunction,
    owner: Seq<char>,
    reflect_receiver: bool,
) -> bool {
    let args = script_visible(func);
    args.len() > 0 && (kind_text(lad, n, args[0].kind, false) == owner || (
    reflect_receiver && reference_primitive(args[0].kind)))
}

/// The arguments of a function of the class `owner` besides its receiver.
pub open spec fn member_args(
    lad: LadFile,
    n: TypeNames,
    func: LadFunction,
    owner: Seq<char>,
    reflect_receiver: bool,
) -> Seq<LadArgument> {
    if has_receiver(lad, n, func, owner, reflect_receiver) {
        script_visible(func).skip(1)
    } else {
        script_visible(func)
    }
}

/// The label of the argument at the given position: its name where it can be
/// used, else its position.
pub open spec fn argument_label(arg: LadArgument, index: int) -> Seq<char> {
    match usable_name(arg) {
        Some(name) => name,
        None => "arg"@ + decimal(index as nat),
    }
}

/// The name of a value, where it can be used as a binding.
pub open spec fn usable_name(arg: LadArgument) -> Option<Seq<char>> {
    match arg.name {
        Some(name) => callable(name@),
        None => None,
    }
}

/// The positions of the arguments that are registrations.
pub open spec fn registration_positions(lad: LadFile, n: TypeNames, args: Seq<LadArgument>) -> Seq<
    int,
> {
    positions_where(args.len(), |i: int| branded(lad, n, args[i].kind) is Some)
}

/// Whether no argument but the last one holds a reference.
pub open spec fn references_only_last(args: Seq<LadArgument>) -> bool {
    forall|i: int|
        0 <= i < args.len() - 1 ==> !holds_reference((#[trigger] args[i]).kind)
}

/// The phantom-generic treatment of a signature, if it gets it: the position
/// of its one registration argument, and the branded type that stands there.
/// Every reference in the signature has to sit in the return type or the final
/// argument, and there has to be one.
pub open spec fn generic_treatment(
    lad: LadFile,
    n: TypeNames,
    args: Seq<LadArgument>,
    ret: LadFieldOrVariableKind,
) -> Option<(int, Seq<char>)> {
    let regs = registration_positions(lad, n, args);
    if regs.len() == 1 && references_only_last(args) && (holds_reference(ret) || (
    args.len() > 0 && holds_reference(args.last().kind))) {
        Some((regs[0], branded(lad, n, args[regs[0]].kind)->0))
    } else {
        None
    }
}

/// The type of the parameter at position `i`.
pub open spec fn param_type(
    lad: LadFile,
    n: TypeNames,
    args: Seq<LadArgument>,
    generic: Option<(int, Seq<char>)>,
    i: int,
) -> Seq<char> {
    match generic {
        Some((at, brand)) => if at == i {
            brand
        } else {
            kind_text(lad, n, args[i].kind, true)
        },
        None => kind_text(lad, n, args[i].kind, false),
    }
}

/// The types of all parameters.
pub open spec fn param_types(
    lad: LadFile,
    n: TypeNames,
    args: Seq<LadArgument>,
    generic: Option<(int, Seq<char>)>,
) -> Seq<Seq<char>> {
    Seq::new(args.len(), |i: int| param_type(lad, n, args, generic, i))
}

/// The parameters, each a label and a type.
pub open spec fn labelled_params(
    lad: LadFile,
    n: TypeNames,
    args: Seq<LadArgument>,
    generic: Option<(int, Seq<char>)>,
) -> Seq<Seq<char>> {
    Seq::new(
        args.len(),
        |i: int| argument_label(args[i], i) + ": "@ + param_type(lad, n, args, generic, i),
    )
}

/// A parameter list.
pub open spec fn params_text(
    lad: LadFile,
    n: TypeNames,
    args: Seq<LadArgument>,
    generic: Option<(int, Seq<char>)>,
) -> Seq<char> {
    joined(labelled_params(lad, n, args, generic), ", "@)
}

/// The documentation line of an argument.
pub open spec fn param_doc(indent: Seq<char>, arg: LadArgument, index: int) -> Seq<char> {
    match flattened(option_text(arg.documentation)) {
        Some(doc) => indent + "-- @param "@ + argument_label(arg, index) + " - "@ + doc + "\n"@,
        None => Seq::empty(),
    }
}

/// The documentation lines of all arguments.
pub open spec fn param_docs(indent: Seq<char>, args: Seq<LadArgument>) -> Seq<Seq<char>> {
    Seq::new(args.len(), |i: int| param_doc(indent, args[i], i))
}

/// The documentation line of a return value.
pub open spec fn return_doc(indent: Seq<char>, ret: LadArgument) -> Seq<char> {
    match flattened(option_text(ret.documentation)) {
        Some(doc) => match usable_name(ret) {
            Some(name) => indent + "-- @return "@ + name + " - "@ + doc + "\n"@,
            None => indent + "-- @return "@ + doc + "\n"@,
        },
        None => Seq::empty(),
    }
}

/// The documentation lines of a signature.
pub open spec fn signature_docs(
    indent: Seq<char>,
    args: Seq<LadArgument>,
    ret: LadArgument,
) -> Seq<char> {
    concat(param_docs(indent, args)) + return_doc(indent, ret)
}

/// The documentation of a parameter and the parameter itself go by the same
/// label.
pub proof fn law_documented_labels_match(
    lad: LadFile,
    n: TypeNames,
    args: Seq<LadArgument>,
    generic: Option<(int, Seq<char>)>,
    indent: Seq<char>,
    i: int,
)
    requires
        0 <= i < args.len(),
    ensures
        labelled_params(lad, n, args, generic)[i] == argument_label(args[i], i) + ": "@
            + param_type(lad, n, args, generic, i),
        param_docs(indent, args)[i] == match flattened(option_text(args[i].documentation)) {
            Some(doc) => indent + "-- @param "@ + argument_label(args[i], i) + " - "@ + doc
                + "\n"@,
            None => Seq::empty(),
        },
{
}

/// A signature is generic exactly if one of its arguments is a registration,
/// no other one is, every reference sits in the last argument or in what is
/// returned, and there is such a reference. What stands for the registration
/// is then its brand.
pub proof fn law_generic_shape(
    lad: LadFile,
    n: TypeNames,
    args: Seq<LadArgument>,
    ret: LadFieldOrVariableKind,
    at: int,
)
    requires
        0 <= at < args.len(),
    ensures
        (generic_treatment(lad, n, args, ret) matches Some((found, brand)) && found == at) <==> {
            &&& branded(lad, n, args[at].kind) is Some
            &&& forall|i: int|
                0 <= i < args.len() && i != at ==> branded(
                    lad,
                    n,
                    (#[trigger] args[i]).kind,
                ) is None
            &&& forall|i: int|
                0 <= i < args.len() - 1 ==> !holds_reference((#[trigger] args[i]).kind)
            &&& holds_reference(ret) || holds_reference(args.last().kind)
        },
        generic_treatment(lad, n, args, ret) matches Some((found, brand)) ==> 0 <= found
            < args.len() && Some(brand) == branded(lad, n, args[found].kind),
{
    let regs = registration_positions(lad, n, args);
    lemma_positions_where(args.len(), |i: int| branded(lad, n, args[i].kind) is Some);
    if regs.len() == 1 {
        assert(regs.contains(regs[0]));
        assert forall|i: int| 0 <= i < args.len() && i != regs[0] implies branded(
            lad,
            n,
            (#[trigger] args[i]).kind,
        ) is None by {
            if branded(lad, n, args[i].kind) is Some {
                assert(regs.contains(i));
                let k = choose|k: int| 0 <= k < regs.len() && regs[k] == i;
                assert(k == 0);
            }
        }
    }
    if branded(lad, n, args[at].kind) is Some && forall|i: int|
        0 <= i < args.len() && i != at ==> branded(lad, n, (#[trigger] args[i]).kind) is None {
        assert(regs.contains(at));
        let k = choose|k: int| 0 <= k < regs.len() && regs[k] == at;
        if regs.len() > 1 {
            let other: int = if k == 0 {
                1
            } else {
                0
            };
            assert(regs.contains(regs[other]));
            assert(regs[other] != at);
        }
    }
}

/// The treatment that a pair of a position and a string stands for.
pub open spec fn treatment(generic: Option<(usize, String)>) -> Option<(int, Seq<char>)> {
    match generic {
        Some((at, brand)) => Some((at as int, brand@)),
        None => None,
    }
}

/// The name of a value, where it can be used as a binding.
fn own_name(arg: &LadArgument) -> (r: Option<String>)
    ensures
        option_text(r) == usable_name(*arg),
{
    match &arg.name {
        Some(name) => callable_name(name.as_str()),
        None => None,
    }
}

/// A parameter's rendered name. Names are labels only (scripts pass
/// positionally), so a reserved or missing one is safely replaced.
pub fn arg_name(arg: &LadArgument, index: usize) -> (r: String)
    ensures
        r@ == argument_label(*arg, index as int),
{
    match own_name(arg) {
        Some(name) => name,
        None => {
            let mut out = "arg".to_owned();
            out.append(to_decimal(index).as_str());
            out
        },
    }
}

/// A function's script-visible arguments: BMS injects a leading auto-provided
/// `FunctionCallContext` on many functions, which scripts never pass.
pub fn script_args<'f>(func: &'f LadFunction) -> (r: &'f [LadArgument])
    ensures
        r@ == script_visible(*func),
{
    let all = func.arguments.as_slice();
    if all.len() > 0 && is_context(&all[0].kind) {
        assert(all@.subrange(1, all@.len() as int) =~= all@.skip(1));
        slice_subrange(all, 1, all.len())
    } else {
        all
    }
}

impl<'a> Converter<'a> {
    /// Split a method's receiver off its argument list. The owning-type argument
    /// (after any auto-injected `FunctionCallContext`) marks the function a method;
    /// for the reference base class the receiver is the reference primitive itself.
    pub fn split_receiver<'f>(
        &self,
        func: &'f LadFunction,
        owner: &str,
        reflect_receiver: bool,
    ) -> (r: (&'f [LadArgument], bool))
        requires
            self.wf(),
        ensures
            r.0@ == member_args(*self.lad, self@.types, *func, owner@, reflect_receiver),
            r.1 == has_receiver(*self.lad, self@.types, *func, owner@, reflect_receiver),
    {
        let args = script_args(func);
        if args.len() > 0 {
            if same_text(self.kind(&args[0].kind).as_str(), owner) || (
            reflect_receiver && is_reference(&args[0].kind)) {
                assert(args@.subrange(1, args@.len() as int) =~= args@.skip(1));
                return (slice_subrange(args, 1, args.len()), true);
            }
        }
        (args, false)
    }

    /// Decide whether a function gets the phantom-generic treatment: exactly one
    /// registration-typed argument, and every `ReflectReference` in the signature
    /// sits in the return type or the final argument (the value slot of
    /// `insert_component`-shaped functions). References elsewhere (e.g. the asset
    /// handle of `get_asset`, which is a `Handle<T>`, not a `T`) would bind `T`
    /// wrongly, so such functions keep their honest `any`s. Returns the
    /// registration argument's index and its branded type.
    pub fn genericize(&self, args: &[LadArgument], ret: &LadFieldOrVariableKind) -> (r: Option<
        (usize, String),
    >)
        requires
            self.wf(),
        ensures
            treatment(r) == generic_treatment(*self.lad, self@.types, args@, *ret),
    {
        let ghost p = |i: int| branded(*self.lad, self@.types, args@[i].kind) is Some;
        let mut at: usize = 0;
        let mut brand = String::new();
        let mut count: u8 = 0;
        let mut i: usize = 0;
        while i < args.len()
            invariant
                i <= args@.len(),
                self.wf(),
                p == (|i: int| branded(*self.lad, self@.types, args@[i].kind) is Some),
                count <= 2,
                count == 0 ==> positions_where(i as nat, p).len() == 0,
                count == 1 ==> positions_where(i as nat, p).len() == 1
                    && at == positions_where(i as nat, p)[0] && at < args@.len()
                    && Some(brand@) == branded(*self.lad, self@.types, args@[at as int].kind),
                count == 2 ==> positions_where(i as nat, p).len() >= 2,
            decreases args@.len() - i,
        {
            if let Some(found) = self.registration_brand(&args[i].kind) {
                if count == 0 {
                    at = i;
                    brand = found;
                    count = 1;
                } else {
                    count = 2;
                }
            }
            i += 1;
        }
        if count != 1 {
            return None;
        }
        let mut has_ref = contains_reflect_reference(ret);
        let mut k: usize = 0;
        while k < args.len()
            invariant
                k <= args@.len(),
                forall|j: int|
                    0 <= j < k && j < args@.len() - 1 ==> !holds_reference(
                        (#[trigger] args@[j]).kind,
                    ),
                has_ref == (holds_reference(*ret) || (k == args@.len() && args@.len()
                    > 0 && holds_reference(args@.last().kind))),
            decreases args@.len() - k,
        {
            if contains_reflect_reference(&args[k].kind) {
                if k + 1 != args.len() {
                    assert(!references_only_last(args@)) by {
                        assert(holds_reference(args@[k as int].kind));
                    }
                    return None;
                }
                has_ref = true;
            }
            k += 1;
        }
        if has_ref {
            Some((at, brand))
        } else {
            None
        }
    }

    /// The type of the parameter at position `i`.
    pub fn param_type_text(
        &self,
        args: &[LadArgument],
        generic: &Option<(usize, String)>,
        i: usize,
    ) -> (r: String)
        requires
            self.wf(),
            i < args@.len(),
        ensures
            r@ == param_type(*self.lad, self@.types, args@, treatment(*generic), i as int),
    {
        match generic {
            Some((at, brand)) => {
                if *at == i {
                    brand.clone()
                } else {
                    self.kind_g(&args[i].kind, true)
                }
            },
            None => self.kind_g(&args[i].kind, false),
        }
    }

    /// Render a parameter list. When `generic` is set (see [`Self::genericize`]),
    /// the registration argument at the given index becomes the brand and any
    /// `ReflectReference` renders as `T`.
    pub fn params(&self, args: &[LadArgument], generic: &Option<(usize, String)>) -> (r: String)
        requires
            self.wf(),
        ensures
            r@ == params_text(*self.lad, self@.types, args@, treatment(*generic)),
    {
        let ghost all = labelled_params(*self.lad, self@.types, args@, treatment(*generic));
        let mut parts: Vec<String> = Vec::new();
        let mut i: usize = 0;
        assert(texts(parts@) =~= all.take(0));
        while i < args.len()
            invariant
                i <= args@.len(),
                self.wf(),
                all == labelled_params(*self.lad, self@.types, args@, treatment(*generic)),
                texts(parts@) == all.take(i as int),
            decreases args@.len() - i,
        {
            let mut part = arg_name(&args[i], i);
            part.append(": ");
            part.append(self.param_type_text(args, generic, i).as_str());
            proof {
                lemma_texts_push(parts@, part);
                lemma_take_push(all, i as int);
            }
            parts.push(part);
            i += 1;
        }
        assert(all.take(i as int) =~= all);
        join(&parts, ", ")
    }
}

/// Emit the per-argument and return documentation the LAD file carries
/// alongside a function's main docstring.
///
/// `ladfile_builder` parses the `Arguments:` / `Returns:` sections out of the
/// Rust doc comment into structured entries and *truncates* the main
/// docstring at that point, so a backend that renders only the main
/// docstring silently drops everything the author wrote about the
/// parameters. Names match [`Converter::params`] exactly, so the comment and the
/// signature always agree.
pub fn push_signature_docs(out: &mut String, indent: &str, args: &[LadArgument], ret: &LadArgument)
    ensures
        final(out)@ == old(out)@ + signature_docs(indent@, args@, *ret),
{
    let ghost all = param_docs(indent@, args@);
    let mut piece = String::new();
    let mut i: usize = 0;
    assert(concat(all.take(0)) =~= Seq::<char>::empty());
    while i < args.len()
        invariant
            i <= args@.len(),
            all == param_docs(indent@, args@),
            piece@ == concat(all.take(i as int)),
        decreases args@.len() - i,
    {
        proof {
            lemma_concat_take(all, i as int);
        }
        piece.append(param_doc_line(indent, &args[i], i).as_str());
        i += 1;
    }
    assert(all.take(i as int) =~= all);
    piece.append(return_doc_line(indent, ret).as_str());
    out.append(piece.as_str());
}

fn param_doc_line(indent: &str, arg: &LadArgument, index: usize) -> (r: String)
    ensures
        r@ == param_doc(indent@, *arg, index as int),
{
    match doc_line(&arg.documentation) {
        Some(doc) => {
            let mut out = indent.to_owned();
            out.append("-- @param ");
            out.append(arg_name(arg, index).as_str());
            out.append(" - ");
            out.append(doc.as_str());
            out.append("\n");
            out
        },
        None => String::new(),
    }
}

fn return_doc_line(indent: &str, ret: &LadArgument) -> (r: String)
    ensures
        r@ == return_doc(indent@, *ret),
{
    match doc_line(&ret.documentation) {
        Some(doc) => {
            let mut out = indent.to_owned();
            out.append("-- @return ");
            if let Some(name) = own_name(ret) {
                out.append(name.as_str());
                out.append(" - ");
            }
            out.append(doc.as_str());
            out.append("\n");
            out
        },
        None => String::new(),
    }
}

} // verus!
