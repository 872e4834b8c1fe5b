//! The registry that definitions are generated from: the parts of a Language
//! Agnostic Definition (LAD) file that decide what is rendered.

use vstd::prelude::*;

verus! {

/// A LAD file: the script-visible types, functions and global instances, each
/// in the file's own order.
#[derive(Debug)]
pub struct LadFile {
    /// The global instances, under their names.
    pub globals: Vec<(String, LadInstance)>,
    /// The types, under the ids that everything else refers to them by.
    pub types: Vec<(LadTypeId, LadTypeDefinition)>,
    /// The functions.
    pub functions: Vec<LadFunction>,
}

impl LadFile {
    /// No two types share an id and no two globals share a name.
    pub open spec fn wf(&self) -> bool {
        &&& forall|i: int, j: int|
            0 <= i < j < self.types@.len() ==> (#[trigger] self.types@[i]).0@ != (
            #[trigger] self.types@[j]).0@
        &&& forall|i: int, j: int|
            0 <= i < j < self.globals@.len() ==> (#[trigger] self.globals@[i]).0@ != (
            #[trigger] self.globals@[j]).0@
    }
}

/// The id of a type within one LAD file.
#[derive(Debug)]
pub struct LadTypeId(pub String);

impl View for LadTypeId {
    type V = Seq<char>;

    open spec fn view(&self) -> Seq<char> {
        self.0@
    }
}

/// A global instance.
#[derive(Debug)]
pub struct LadInstance {
    /// What the instance is.
    pub type_kind: LadFieldOrVariableKind,
}

/// A type definition.
#[derive(Debug)]
pub struct LadTypeDefinition {
    /// The type's short name.
    pub identifier: String,
    /// The type's full path.
    pub path: String,
    /// The names of the generic parameters that the type is an instance of.
    pub generics: Vec<String>,
    /// The documentation of the type.
    pub documentation: Option<String>,
    /// The shape of the type.
    pub layout: LadTypeLayout,
    /// What else is known of the type.
    pub metadata: LadTypeMetadata,
}

/// What is known of a type besides its shape.
#[derive(Debug)]
pub struct LadTypeMetadata {
    /// Whether the type is a component.
    pub is_component: bool,
    /// Whether the type is a resource.
    pub is_resource: bool,
    /// The primitive that stands for the type in scripts, if there is one.
    pub mapped_to_primitive_kind: Option<ReflectionPrimitiveKind>,
}

/// The shape of a type.
#[derive(Debug)]
pub enum LadTypeLayout {
    /// Nothing is known of the shape.
    Opaque,
    /// A struct.
    MonoVariant(LadVariant),
    /// An enum.
    Enum(Vec<LadVariant>),
}

/// A struct, or one variant of an enum.
#[derive(Debug)]
pub enum LadVariant {
    /// A variant with unnamed fields.
    TupleStruct {
        /// The name of the variant.
        name: String,
    },
    /// A variant with named fields.
    Struct {
        /// The name of the variant.
        name: String,
        /// The fields, in order of declaration.
        fields: Vec<LadNamedField>,
    },
    /// A variant without fields.
    Unit {
        /// The name of the variant.
        name: String,
    },
}

/// A named field.
#[derive(Debug)]
pub struct LadNamedField {
    /// The name of the field.
    pub name: String,
    /// What the field holds.
    pub type_: LadFieldOrVariableKind,
}

/// A function that scripts can call.
#[derive(Debug)]
pub struct LadFunction {
    /// What the function belongs to.
    pub namespace: LadFunctionNamespace,
    /// The name of the function.
    pub identifier: String,
    /// The arguments, in order.
    pub arguments: Vec<LadArgument>,
    /// What the function returns.
    pub return_type: LadArgument,
    /// The documentation of the function.
    pub documentation: Option<String>,
}

/// What a function belongs to.
#[derive(Debug)]
pub enum LadFunctionNamespace {
    /// The function is associated with a type.
    Type(LadTypeId),
    /// The function is global.
    Global,
}

/// An argument or a return value.
#[derive(Debug)]
pub struct LadArgument {
    /// What the value is.
    pub kind: LadFieldOrVariableKind,
    /// The documentation of the value.
    pub documentation: Option<String>,
    /// The name of the value.
    pub name: Option<String>,
}

/// What a field, an argument or an instance holds.
#[derive(Debug)]
pub enum LadFieldOrVariableKind {
    /// A shared reference to a value of a type.
    Ref(LadTypeId),
    /// A mutable reference to a value of a type.
    Mut(LadTypeId),
    /// A value of a type.
    Val(LadTypeId),
    /// An optional value.
    Option(Box<LadFieldOrVariableKind>),
    /// A list.
    Vec(Box<LadFieldOrVariableKind>),
    /// A map from keys to values.
    HashMap(Box<LadFieldOrVariableKind>, Box<LadFieldOrVariableKind>),
    /// A set.
    HashSet(Box<LadFieldOrVariableKind>),
    /// A value, or an error that is raised in the script.
    InteropResult(Box<LadFieldOrVariableKind>),
    /// A tuple.
    Tuple(Vec<LadFieldOrVariableKind>),
    /// A list of fixed length.
    Array(Box<LadFieldOrVariableKind>, usize),
    /// A primitive.
    Primitive(ReflectionPrimitiveKind),
    /// One of several alternatives.
    Union(Vec<LadFieldOrVariableKind>),
    /// A value of a type of which nothing else is known.
    Unknown(LadTypeId),
}

/// The primitives that cross the script boundary.
#[derive(Debug)]
pub enum ReflectionPrimitiveKind {
    Bool,
    Isize,
    I8,
    I16,
    I32,
    I64,
    I128,
    Usize,
    U8,
    U16,
    U32,
    U64,
    U128,
    F32,
    F64,
    Char,
    Str,
    String,
    OsString,
    PathBuf,
    FunctionCallContext,
    DynamicFunction,
    ScriptValue,
    DynamicFunctionMut,
    ReflectReference,
    /// A primitive that is defined elsewhere.
    External(String),
}

} // verus!
