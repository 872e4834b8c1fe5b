//! LAD files from their JSON source.
//!
//! Reading JSON is what `ladfile` does; the functions here hand its result on,
//! field by field and variant by variant, as the library's own types.

use vstd::prelude::*;

use ladfile::LadArgument as OutsideArgument;
use ladfile::LadFieldOrVariableKind as OutsideKind;
use ladfile::LadFile as OutsideFile;
use ladfile::LadFunction as OutsideFunction;
use ladfile::LadFunctionNamespace as OutsideNamespace;
use ladfile::LadNamedField as OutsideField;
use ladfile::LadTypeDefinition as OutsideDefinition;
use ladfile::LadTypeId as OutsideId;
use ladfile::LadTypeLayout as OutsideLayout;
use ladfile::LadVariant as OutsideVariant;
use ladfile::ReflectionPrimitiveKind as OutsidePrimitiveKind;
use ladfile::LadFieldOrVariableKind::{
    Ref as OutsideRef, Mut as OutsideMut, Val as OutsideVal, Unknown as OutsideUnknown,
    Primitive as OutsidePrimitive, Option as OutsideOption, Vec as OutsideVec,
    HashSet as OutsideHashSet, HashMap as OutsideHashMap, Array as OutsideArray,
    Tuple as OutsideTuple, Union as OutsideUnion, InteropResult as OutsideInteropResult,
};
use ladfile::ReflectionPrimitiveKind::{
    Bool as OutsideBool, Isize as OutsideIsize, I8 as OutsideI8, I16 as OutsideI16,
    I32 as OutsideI32, I64 as OutsideI64, I128 as OutsideI128, Usize as OutsideUsize,
    U8 as OutsideU8, U16 as OutsideU16, U32 as OutsideU32, U64 as OutsideU64, U128 as OutsideU128,
    F32 as OutsideF32, F64 as OutsideF64, Char as OutsideChar, Str as OutsideStr,
    String as OutsideString, OsString as OutsideOsString, PathBuf as OutsidePathBuf,
    FunctionCallContext as OutsideFunctionCallContext, DynamicFunction as OutsideDynamicFunction,
    ScriptValue as OutsideScriptValue, DynamicFunctionMut as OutsideDynamicFunctionMut,
    ReflectReference as OutsideReflectReference, External as OutsideExternal,
};

use crate::lad::{
    LadArgument, LadFieldOrVariableKind, LadFile, LadFunction, LadFunctionNamespace, LadInstance,
    LadNamedField, LadTypeDefinition, LadTypeId, LadTypeLayout, LadTypeMetadata, LadVariant,
    ReflectionPrimitiveKind,
};
use crate::lad::LadFieldOrVariableKind::{
    Ref as OwnRef, Mut as OwnMut, Val as OwnVal, Unknown as OwnUnknown, Primitive as OwnPrimitive,
    Option as OwnOption, Vec as OwnVec, HashSet as OwnHashSet, HashMap as OwnHashMap,
    Array as OwnArray, Tuple as OwnTuple, Union as OwnUnion, InteropResult as OwnInteropResult,
};
use crate::lad::ReflectionPrimitiveKind::{
    Bool as OwnBool, Isize as OwnIsize, I8 as OwnI8, I16 as OwnI16, I32 as OwnI32, I64 as OwnI64,
    I128 as OwnI128, Usize as OwnUsize, U8 as OwnU8, U16 as OwnU16, U32 as OwnU32, U64 as OwnU64,
    U128 as OwnU128, F32 as OwnF32, F64 as OwnF64, Char as OwnChar, Str as OwnStr,
    String as OwnString, OsString as OwnOsString, PathBuf as OwnPathBuf,
    FunctionCallContext as OwnFunctionCallContext, DynamicFunction as OwnDynamicFunction,
    ScriptValue as OwnScriptValue, DynamicFunctionMut as OwnDynamicFunctionMut,
    ReflectReference as OwnReflectReference, External as OwnExternal,
};
use crate::lad_to_luau_with;
use crate::options::Options;
use crate::render::luau_text;

verus! {

/// A LAD file as `ladfile` holds it.
#[verifier::external_type_specification]
#[verifier::external_body]
pub struct ExOutsideFile(OutsideFile);

/// The id of a type as `ladfile` holds it.
#[verifier::external_type_specification]
#[verifier::external_body]
pub struct ExOutsideId(OutsideId);

/// A primitive as `ladfile` holds it.
#[verifier::external_type_specification]
#[verifier::external_body]
pub struct ExOutsidePrimitiveKind(OutsidePrimitiveKind);

/// What a value is, as `ladfile` holds it.
#[verifier::external_type_specification]
#[verifier::external_body]
pub struct ExOutsideKind(OutsideKind);

/// A named field as `ladfile` holds it.
#[verifier::external_type_specification]
#[verifier::external_body]
pub struct ExOutsideField(OutsideField);

/// A variant as `ladfile` holds it.
#[verifier::external_type_specification]
#[verifier::external_body]
pub struct ExOutsideVariant(OutsideVariant);

/// The shape of a type as `ladfile` holds it.
#[verifier::external_type_specification]
#[verifier::external_body]
pub struct ExOutsideLayout(OutsideLayout);

/// A type definition as `ladfile` holds it.
#[verifier::external_type_specification]
#[verifier::external_body]
pub struct ExOutsideDefinition(OutsideDefinition);

/// An argument as `ladfile` holds it.
#[verifier::external_type_specification]
#[verifier::external_body]
pub struct ExOutsideArgument(OutsideArgument);

/// A function as `ladfile` holds it.
#[verifier::external_type_specification]
#[verifier::external_body]
pub struct ExOutsideFunction(OutsideFunction);

/// What `ladfile::parse_lad_file` makes of a source: the file, or the message
/// of its error.
pub uninterp spec fn parsed_lad_file(source: Seq<char>) -> Result<LadFile, Seq<char>>;

/// Why a source is no LAD file.
#[derive(Debug)]
pub struct ParseError {
    /// What is wrong, as the JSON parser puts it.
    pub message: String,
}

/// `LadTypeId`'s `Display` writes the id out as it is. Claims nothing.
#[verifier::external_body]
fn id_from(id: &OutsideId) -> (r: LadTypeId) {
    LadTypeId(id.to_string())
}

/// The primitive of the same name, of `ladfile::ReflectionPrimitiveKind`. Claims
/// nothing.
#[verifier::external_body]
fn primitive_from(p: &OutsidePrimitiveKind) -> (r: ReflectionPrimitiveKind) {
    match p {
        OutsideBool => OwnBool, OutsideIsize => OwnIsize, OutsideI8 => OwnI8,
        OutsideI16 => OwnI16, OutsideI32 => OwnI32, OutsideI64 => OwnI64, OutsideI128 => OwnI128,
        OutsideUsize => OwnUsize, OutsideU8 => OwnU8, OutsideU16 => OwnU16, OutsideU32 => OwnU32,
        OutsideU64 => OwnU64, OutsideU128 => OwnU128, OutsideF32 => OwnF32, OutsideF64 => OwnF64,
        OutsideChar => OwnChar, OutsideStr => OwnStr, OutsideString => OwnString,
        OutsideOsString => OwnOsString, OutsidePathBuf => OwnPathBuf,
        OutsideFunctionCallContext => OwnFunctionCallContext,
        OutsideDynamicFunction => OwnDynamicFunction, OutsideScriptValue => OwnScriptValue,
        OutsideDynamicFunctionMut => OwnDynamicFunctionMut,
        OutsideReflectReference => OwnReflectReference,
        OutsideExternal(name) => OwnExternal(name.clone()),
    }
}

/// What a value is, of `ladfile::LadFieldOrVariableKind`, with everything inside
/// it. Claims nothing.
#[verifier::external_body]
fn kind_from(kind: &OutsideKind) -> (r: LadFieldOrVariableKind) {
    match kind {
        OutsideRef(t) => OwnRef(id_from(t)),
        OutsideMut(t) => OwnMut(id_from(t)),
        OutsideVal(t) => OwnVal(id_from(t)),
        OutsideUnknown(t) => OwnUnknown(id_from(t)),
        OutsidePrimitive(p) => OwnPrimitive(primitive_from(p)),
        OutsideOption(k) => OwnOption(boxed_from(k)),
        OutsideVec(k) => OwnVec(boxed_from(k)),
        OutsideHashSet(k) => OwnHashSet(boxed_from(k)),
        OutsideHashMap(k, v) => OwnHashMap(boxed_from(k), boxed_from(v)),
        OutsideArray(k, size) => OwnArray(boxed_from(k), *size),
        OutsideTuple(items) => OwnTuple(kinds_from(items)),
        OutsideUnion(items) => OwnUnion(kinds_from(items)),
        OutsideInteropResult(k) => OwnInteropResult(boxed_from(k)),
    }
}

/// What a value inside another is. Claims nothing.
#[verifier::external_body]
fn boxed_from(kind: &OutsideKind) -> (r: Box<LadFieldOrVariableKind>) {
    Box::new(kind_from(kind))
}

/// What several values are. Claims nothing.
#[verifier::external_body]
fn kinds_from(kinds: &Vec<OutsideKind>) -> (r: Vec<LadFieldOrVariableKind>) {
    kinds.iter().map(kind_from).collect()
}

/// A named field. Claims nothing.
#[verifier::external_body]
fn field_from(field: &OutsideField) -> (r: LadNamedField) {
    LadNamedField { name: field.name.clone(), type_: kind_from(&field.type_) }
}

/// A variant, of `ladfile::LadVariant`. Claims nothing.
#[verifier::external_body]
fn variant_from(variant: &OutsideVariant) -> (r: LadVariant) {
    match variant {
        OutsideVariant::TupleStruct { name, .. } => LadVariant::TupleStruct {
            name: name.to_string(),
        },
        OutsideVariant::Struct { name, fields } => LadVariant::Struct {
            name: name.to_string(),
            fields: fields.iter().map(field_from).collect(),
        },
        OutsideVariant::Unit { name } => LadVariant::Unit { name: name.to_string() },
    }
}

/// The shape of a type, of `ladfile::LadTypeLayout`. Claims nothing.
#[verifier::external_body]
fn layout_from(layout: &OutsideLayout) -> (r: LadTypeLayout) {
    match layout {
        OutsideLayout::Opaque => LadTypeLayout::Opaque,
        OutsideLayout::MonoVariant(only) => LadTypeLayout::MonoVariant(variant_from(only)),
        OutsideLayout::Enum(all) => LadTypeLayout::Enum(all.iter().map(variant_from).collect()),
    }
}

/// What is known of a type besides its shape. Claims nothing.
#[verifier::external_body]
fn metadata_from(def: &OutsideDefinition) -> (r: LadTypeMetadata) {
    let metadata = &def.metadata;
    LadTypeMetadata {
        is_component: metadata.is_component,
        is_resource: metadata.is_resource,
        mapped_to_primitive_kind: metadata.mapped_to_primitive_kind.as_ref().map(primitive_from),
    }
}

/// A type definition. Claims nothing.
#[verifier::external_body]
fn definition_from(def: &OutsideDefinition) -> (r: LadTypeDefinition) {
    LadTypeDefinition {
        identifier: def.identifier.clone(),
        path: def.path.clone(),
        generics: def.generics.iter().map(|g| g.name.clone()).collect(),
        documentation: def.documentation.clone(),
        layout: layout_from(&def.layout),
        metadata: metadata_from(def),
    }
}

/// An argument or a return value. Claims nothing.
#[verifier::external_body]
fn argument_from(arg: &OutsideArgument) -> (r: LadArgument) {
    LadArgument {
        kind: kind_from(&arg.kind),
        documentation: arg.documentation.as_ref().map(|doc| doc.to_string()),
        name: arg.name.as_ref().map(|name| name.to_string()),
    }
}

/// A function. Claims nothing.
#[verifier::external_body]
fn function_from(func: &OutsideFunction) -> (r: LadFunction) {
    LadFunction {
        namespace: match &func.namespace {
            OutsideNamespace::Type(t) => LadFunctionNamespace::Type(id_from(t)),
            OutsideNamespace::Global => LadFunctionNamespace::Global,
        },
        identifier: func.identifier.to_string(),
        arguments: func.arguments.iter().map(argument_from).collect(),
        return_type: argument_from(&func.return_type),
        documentation: func.documentation.as_ref().map(|doc| doc.to_string()),
    }
}

/// A file: its globals, types and functions, each in the file's own order.
/// Claims nothing.
#[verifier::external_body]
fn file_from(file: &OutsideFile) -> (r: LadFile) {
    LadFile {
        globals: file.globals.iter().map(
            |(name, g)| (name.to_string(), LadInstance { type_kind: kind_from(&g.type_kind) }),
        ).collect(),
        types: file.types.iter().map(|(id, def)| (id_from(id), definition_from(def))).collect(),
        functions: file.functions.values().map(function_from).collect(),
    }
}

/// `ladfile::parse_lad_file` reads a LAD file from JSON. What it makes of a source
/// depends on the source alone; here its result is held in the library's own
/// types, one for one, and its error as the message that it displays. The file
/// holds its types and its globals in maps, so no two types share an id and no
/// two globals share a name.
#[verifier::external_body]
fn read_lad_file(source: &str) -> (r: Result<LadFile, String>)
    ensures
        match r {
            Ok(lad) => parsed_lad_file(source@) == Ok::<LadFile, Seq<char>>(lad) && lad.wf(),
            Err(message) => parsed_lad_file(source@) == Err::<LadFile, Seq<char>>(message@),
        },
{
    match ladfile::parse_lad_file(source) {
        Ok(file) => Ok(file_from(&file)),
        Err(error) => Err(error.to_string()),
    }
}

/// Reads a LAD file from its JSON source.
pub fn parse_lad_file(source: &str) -> (r: Result<LadFile, ParseError>)
    ensures
        match parsed_lad_file(source@) {
            Ok(lad) => r == Ok::<LadFile, ParseError>(lad) && lad.wf(),
            Err(message) => r matches Err(error) && error.message@ == message,
        },
{
    match read_lad_file(source) {
        Ok(lad) => Ok(lad),
        Err(message) => Err(ParseError { message }),
    }
}

/// Reads a LAD file from its JSON source and renders it as Luau definition-file
/// source.
pub fn source_to_luau(source: &str, options: &Options) -> (r: Result<String, ParseError>)
    ensures
        match parsed_lad_file(source@) {
            Ok(lad) => r matches Ok(definitions) && definitions@ == luau_text(lad, *options),
            Err(message) => r matches Err(error) && error.message@ == message,
        },
{
    match parse_lad_file(source) {
        Ok(lad) => Ok(lad_to_luau_with(&lad, options)),
        Err(error) => Err(error),
    }
}

} // verus!
