//! Definitions generated from values that are built here.

use std::path::PathBuf;

use luau_lad_backend::converter::Converter;
use luau_lad_backend::fields::{dedupe_field_keys, lad_variant_name, variant_union};
use luau_lad_backend::kinds::{contains_reflect_reference, contains_string_primitive, primitive};
use luau_lad_backend::lad::{
    LadArgument, LadFieldOrVariableKind, LadFile, LadFunction, LadFunctionNamespace, LadInstance,
    LadNamedField, LadTypeDefinition, LadTypeId, LadTypeLayout, LadTypeMetadata, LadVariant,
    ReflectionPrimitiveKind,
};
use luau_lad_backend::overloads::{doc_score, Place};
use luau_lad_backend::signature::{arg_name, push_signature_docs, script_args};
use luau_lad_backend::warnings::skipped_fields;
use luau_lad_backend::{
    fflags_args, lad_to_luau, lad_to_luau_with, lad_warnings, LuauLadPlugin, Options, FFLAGS,
};

const HEADER: &str = "--!strict
-- AUTO-GENERATED from the Bevy reflection registry via luau_lad_backend.
-- Do not edit by hand.
--
-- A registry this size overruns luau's default type-inference budgets.
-- Analyze with:
--     --flag:LuauTypeInferIterationLimit=10000000
--     --flag:LuauTarjanChildLimit=1000000
--     --flag:LuauTypeCloneIterationLimit=10000000
--     --flag:LuauSolverConstraintLimit=100000
--     --flag:LuauTypeInferRecursionLimit=2000
-- (or the equivalent `luau-lsp.fflags.override` editor setting).

";

fn number() -> LadFieldOrVariableKind {
    LadFieldOrVariableKind::Primitive(ReflectionPrimitiveKind::F64)
}

fn text() -> LadFieldOrVariableKind {
    LadFieldOrVariableKind::Primitive(ReflectionPrimitiveKind::String)
}

fn reference() -> LadFieldOrVariableKind {
    LadFieldOrVariableKind::Primitive(ReflectionPrimitiveKind::ReflectReference)
}

fn value_of(id: &str) -> LadFieldOrVariableKind {
    LadFieldOrVariableKind::Val(LadTypeId(id.to_string()))
}

fn unit() -> LadFieldOrVariableKind {
    LadFieldOrVariableKind::Tuple(vec![])
}

fn arg(name: &str, kind: LadFieldOrVariableKind) -> LadArgument {
    LadArgument {
        kind,
        documentation: None,
        name: Some(name.to_string()),
    }
}

fn unnamed(kind: LadFieldOrVariableKind) -> LadArgument {
    LadArgument {
        kind,
        documentation: None,
        name: None,
    }
}

fn field(name: &str, type_: LadFieldOrVariableKind) -> LadNamedField {
    LadNamedField {
        name: name.to_string(),
        type_,
    }
}

fn type_of(id: &str, identifier: &str, layout: LadTypeLayout) -> (LadTypeId, LadTypeDefinition) {
    (
        LadTypeId(id.to_string()),
        LadTypeDefinition {
            identifier: identifier.to_string(),
            path: id.to_string(),
            generics: vec![],
            documentation: None,
            layout,
            metadata: LadTypeMetadata {
                is_component: false,
                is_resource: false,
                mapped_to_primitive_kind: None,
            },
        },
    )
}

fn reference_type(id: &str) -> (LadTypeId, LadTypeDefinition) {
    let mut entry = type_of(id, "ReflectReference", LadTypeLayout::Opaque);
    entry.1.metadata.mapped_to_primitive_kind = Some(ReflectionPrimitiveKind::ReflectReference);
    entry
}

fn plain_struct(fields: Vec<LadNamedField>) -> LadTypeLayout {
    LadTypeLayout::MonoVariant(LadVariant::Struct {
        name: "S".to_string(),
        fields,
    })
}

fn member(
    owner: &str,
    name: &str,
    arguments: Vec<LadArgument>,
    ret: LadFieldOrVariableKind,
) -> LadFunction {
    LadFunction {
        namespace: LadFunctionNamespace::Type(LadTypeId(owner.to_string())),
        identifier: name.to_string(),
        arguments,
        return_type: unnamed(ret),
        documentation: None,
    }
}

fn global_fn(name: &str, arguments: Vec<LadArgument>, ret: LadFieldOrVariableKind) -> LadFunction {
    LadFunction {
        namespace: LadFunctionNamespace::Global,
        identifier: name.to_string(),
        arguments,
        return_type: unnamed(ret),
        documentation: None,
    }
}

fn file(
    globals: Vec<(&str, LadFieldOrVariableKind)>,
    types: Vec<(LadTypeId, LadTypeDefinition)>,
    functions: Vec<LadFunction>,
) -> LadFile {
    LadFile {
        globals: globals
            .into_iter()
            .map(|(name, type_kind)| (name.to_string(), LadInstance { type_kind }))
            .collect(),
        types,
        functions,
    }
}

fn registrations() -> Vec<(LadTypeId, LadTypeDefinition)> {
    vec![
        type_of("c", "ScriptComponentRegistration", LadTypeLayout::Opaque),
        type_of("r", "ScriptResourceRegistration", LadTypeLayout::Opaque),
        type_of("t", "ScriptTypeRegistration", LadTypeLayout::Opaque),
    ]
}

#[test]
fn an_empty_file_is_its_header() {
    assert_eq!(lad_to_luau(&file(vec![], vec![], vec![])), HEADER);
}

#[test]
fn a_whole_file_is_laid_out_in_order() {
    let mut point = type_of("demo::Point", "Point", plain_struct(vec![field("x", number())]));
    point.1.documentation = Some("A point.\nIn the plane.".to_string());
    let stance = type_of(
        "demo::Stance",
        "Stance",
        LadTypeLayout::Enum(vec![
            LadVariant::Unit { name: "Idle".to_string() },
            LadVariant::Struct {
                name: "Moving".to_string(),
                fields: vec![field("speed", number())],
            },
        ]),
    );
    let mut length = member("demo::Point", "length", vec![arg("_self", value_of("demo::Point"))], number());
    length.documentation = Some("How long.".to_string());
    let origin = member("demo::Point", "origin", vec![], value_of("demo::Point"));
    let mut describe = global_fn("describe", vec![arg("point", value_of("demo::Point")), unnamed(number())], text());
    describe.arguments[0].documentation = Some("What to\ndescribe.".to_string());
    describe.return_type.documentation = Some("The text.".to_string());
    describe.return_type.name = Some("text".to_string());
    let lad = file(
        vec![("zero", value_of("demo::Point")), ("count", number()), ("raw", reference())],
        vec![stance, point],
        vec![describe, origin, length],
    );
    let expected = "export type PointInit = {
\tx: number?,
}
-- A point.
-- In the plane.
declare extern type Point with
\tx: number
\t-- How long.
\tfunction length(self): number
\torigin: () -> Point
end

export type StanceVariant = \"Idle\" | \"Moving\"
export type StanceInit = { variant: StanceVariant }
declare extern type Stance with
\tspeed: number?
end

-- @param point - What to describe.
-- @return text - The text.
declare function describe(point: Point, arg1: number): string

declare count: number
declare zero: Point
";
    assert_eq!(lad_to_luau(&lad), format!("{HEADER}{expected}"));
}

#[test]
fn leaving_payloads_out_disturbs_nothing_else() {
    let lad = file(
        vec![],
        vec![type_of("p", "Point", plain_struct(vec![field("x", number())]))],
        vec![],
    );
    let with = lad_to_luau(&lad);
    let without = lad_to_luau_with(&lad, &Options { init_types: false });
    assert_eq!(with.replace("export type PointInit = {\n\tx: number?,\n}\n", ""), without);
    assert!(with.len() > without.len());
}

#[test]
fn names_never_collide() {
    let lad = file(
        vec![],
        vec![
            reference_type("bms::ReflectReference"),
            type_of("1", "Reg", LadTypeLayout::Opaque),
            type_of("2", "ReflectReference", LadTypeLayout::Opaque),
            type_of("3", "Dup", LadTypeLayout::Enum(vec![LadVariant::Unit { name: "A".to_string() }])),
            type_of("4", "Dup", LadTypeLayout::Opaque),
            type_of("5", "DupVariant", LadTypeLayout::Opaque),
            type_of("6", "DupInit", LadTypeLayout::Opaque),
            type_of("7", "", LadTypeLayout::Opaque),
            type_of("8", "Vec<T>", LadTypeLayout::Opaque),
        ],
        vec![],
    );
    let converter = Converter::new(&lad, &Options::default());
    let name = |s: &str| Some(s.to_string());
    assert_eq!(
        converter.names,
        vec![
            None,
            name("Reg_"),
            name("ReflectReference_"),
            name("Dup"),
            name("Dup_"),
            name("DupVariant"),
            name("DupInit"),
            name("Unknown"),
            name("Vec_T_"),
        ]
    );
    assert_eq!(converter.variant_aliases[3], name("DupVariant_"));
    assert_eq!(converter.init_aliases[3], name("DupInit_"));
    assert_eq!(converter.reflect_ref, Some(0));
    let luau = converter.render();
    for class in ["Reg_", "ReflectReference_", "Dup", "Dup_", "Unknown", "Vec_T_"] {
        let head = format!("declare extern type {class} extends ReflectReference with\n");
        assert_eq!(luau.matches(&head).count(), 1, "{luau}");
    }
}

#[test]
fn kinds_are_written_as_luau_types() {
    let lad = file(
        vec![],
        vec![type_of("p", "Point", LadTypeLayout::Opaque), reference_type("ref")],
        vec![],
    );
    let converter = Converter::new(&lad, &Options::default());
    let boxed = |kind| Box::new(kind);
    assert_eq!(converter.kind(&value_of("p")), "Point");
    assert_eq!(converter.kind(&LadFieldOrVariableKind::Ref(LadTypeId("p".to_string()))), "Point");
    assert_eq!(converter.kind(&LadFieldOrVariableKind::Mut(LadTypeId("p".to_string()))), "Point");
    assert_eq!(
        converter.kind(&LadFieldOrVariableKind::Unknown(LadTypeId("absent".to_string()))),
        "any"
    );
    assert_eq!(converter.kind(&value_of("ref")), "any");
    assert_eq!(converter.kind(&LadFieldOrVariableKind::Option(boxed(number()))), "number?");
    assert_eq!(converter.kind(&LadFieldOrVariableKind::Vec(boxed(text()))), "{ string }");
    assert_eq!(converter.kind(&LadFieldOrVariableKind::HashSet(boxed(text()))), "{ string }");
    assert_eq!(converter.kind(&LadFieldOrVariableKind::Array(boxed(number()), 3)), "{ number }");
    assert_eq!(
        converter.kind(&LadFieldOrVariableKind::HashMap(boxed(text()), boxed(number()))),
        "{ [string]: number }"
    );
    assert_eq!(converter.kind(&LadFieldOrVariableKind::InteropResult(boxed(number()))), "number");
    assert_eq!(converter.kind(&unit()), "nil");
    assert_eq!(converter.kind(&LadFieldOrVariableKind::Tuple(vec![number()])), "{ number }");
    assert_eq!(
        converter.kind(&LadFieldOrVariableKind::Tuple(vec![number(), text(), number()])),
        "{ number | string }"
    );
    assert_eq!(
        converter.kind(&LadFieldOrVariableKind::Union(vec![
            text(),
            LadFieldOrVariableKind::Primitive(ReflectionPrimitiveKind::Str),
            number(),
        ])),
        "string | number"
    );
    let nested = || {
        LadFieldOrVariableKind::Union(vec![
            LadFieldOrVariableKind::Primitive(ReflectionPrimitiveKind::Str),
            LadFieldOrVariableKind::Union(vec![text(), number()]),
        ])
    };
    assert_eq!(converter.kind(&nested()), "string | number");
    assert_eq!(
        converter.kind(&LadFieldOrVariableKind::Tuple(vec![number(), nested()])),
        "{ number | string }"
    );
    assert_eq!(
        converter.kind(&LadFieldOrVariableKind::Union(vec![
            text(),
            LadFieldOrVariableKind::InteropResult(boxed(nested())),
        ])),
        "string | number"
    );
    let nothing = || LadFieldOrVariableKind::Union(vec![]);
    assert_eq!(converter.kind(&nothing()), "");
    assert_eq!(
        converter.kind(&LadFieldOrVariableKind::Union(vec![nothing(), number(), nothing()])),
        " | number"
    );
    assert_eq!(converter.kind(&LadFieldOrVariableKind::Union(vec![nothing(), nothing()])), "");
    assert_eq!(converter.kind(&LadFieldOrVariableKind::Tuple(vec![nothing()])), "{  }");
    assert_eq!(
        converter.kind(&LadFieldOrVariableKind::Tuple(vec![number(), nothing()])),
        "{ number |  }"
    );
    assert_eq!(converter.kind_g(&LadFieldOrVariableKind::Option(boxed(reference())), true), "T?");
    assert_eq!(converter.kind(&reference()), "any");
}

#[test]
fn primitives_have_luau_names() {
    assert_eq!(primitive(&ReflectionPrimitiveKind::Bool), "boolean");
    assert_eq!(primitive(&ReflectionPrimitiveKind::U128), "number");
    assert_eq!(primitive(&ReflectionPrimitiveKind::Isize), "number");
    assert_eq!(primitive(&ReflectionPrimitiveKind::F32), "number");
    assert_eq!(primitive(&ReflectionPrimitiveKind::Char), "string");
    assert_eq!(primitive(&ReflectionPrimitiveKind::PathBuf), "string");
    assert_eq!(primitive(&ReflectionPrimitiveKind::OsString), "string");
    assert_eq!(primitive(&ReflectionPrimitiveKind::ScriptValue), "any");
    assert_eq!(primitive(&ReflectionPrimitiveKind::DynamicFunction), "any");
    assert_eq!(primitive(&ReflectionPrimitiveKind::External("X".to_string())), "any");
}

#[test]
fn nested_primitives_are_found() {
    let nested = LadFieldOrVariableKind::InteropResult(Box::new(LadFieldOrVariableKind::HashMap(
        Box::new(number()),
        Box::new(LadFieldOrVariableKind::Union(vec![unit(), text()])),
    )));
    assert!(contains_string_primitive(&nested));
    assert!(!contains_reflect_reference(&nested));
    assert!(!contains_string_primitive(&value_of("String")));
    let list = LadFieldOrVariableKind::Tuple(vec![
        number(),
        LadFieldOrVariableKind::Vec(Box::new(reference())),
    ]);
    assert!(contains_reflect_reference(&list));
}

#[test]
fn a_colliding_field_key_keeps_the_first_field() {
    let fields = vec![
        field("a-b", number()),
        field("end", number()),
        field("a_b", text()),
        field("c", text()),
        field("end", text()),
    ];
    assert_eq!(
        dedupe_field_keys(&fields),
        vec![
            ("a_b".to_string(), 0),
            ("[\"end\"]".to_string(), 1),
            ("c".to_string(), 3),
        ]
    );
    let luau = lad_to_luau(&file(vec![], vec![type_of("s", "S", plain_struct(fields))], vec![]));
    assert!(luau.contains("with\n\ta_b: number\n\t[\"end\"]: number\n\tc: string\nend\n"), "{luau}");
}

#[test]
fn enum_fields_merge_by_key() {
    let layout = LadTypeLayout::Enum(vec![
        LadVariant::Struct {
            name: "A".to_string(),
            fields: vec![field("level", number()), field("name", text())],
        },
        LadVariant::TupleStruct { name: "B".to_string() },
        LadVariant::Struct {
            name: "C".to_string(),
            fields: vec![field("level", text()), field("level", number())],
        },
    ]);
    let luau = lad_to_luau(&file(vec![], vec![type_of("e", "E", layout)], vec![]));
    assert!(luau.contains("with\n\tlevel: (number | string)?\n\tname: string?\nend\n"), "{luau}");
    assert!(luau.contains("export type EVariant = \"A\" | \"B\" | \"C\"\n"), "{luau}");
}

#[test]
fn merged_fields_list_each_alternative_once() {
    let either = || LadFieldOrVariableKind::Union(vec![number(), text()]);
    let layout = LadTypeLayout::Enum(vec![
        LadVariant::Struct {
            name: "A".to_string(),
            fields: vec![field("level", either()), field("only", either())],
        },
        LadVariant::Struct {
            name: "B".to_string(),
            fields: vec![field("level", text()), field("none", number())],
        },
        LadVariant::Struct {
            name: "C".to_string(),
            fields: vec![field("none", LadFieldOrVariableKind::Union(vec![]))],
        },
    ]);
    let luau = lad_to_luau(&file(vec![], vec![type_of("e", "E", layout)], vec![]));
    assert!(
        luau.contains(
            "with\n\tlevel: (number | string)?\n\tonly: number | string?\n\tnone: (number | )?\nend\n"
        ),
        "{luau}"
    );
}

#[test]
fn generic_methods_name_their_receiver() {
    let mut types = registrations();
    types.push(type_of("w", "World", LadTypeLayout::Opaque));
    types.push(reference_type("ref"));
    let luau = lad_to_luau(&file(
        vec![],
        types,
        vec![
            member(
                "w",
                "get",
                vec![arg("_self", value_of("w")), arg("registration", value_of("c"))],
                reference(),
            ),
            member(
                "w",
                "has",
                vec![arg("_self", value_of("w")), arg("registration", value_of("c"))],
                number(),
            ),
            member(
                "ref",
                "cast",
                vec![arg("reference", reference()), arg("registration", value_of("t"))],
                LadFieldOrVariableKind::Option(Box::new(reference())),
            ),
        ],
    ));
    assert!(luau.contains("\tget: <T>(self: World, registration: Reg<T>) -> T\n"), "{luau}");
    assert!(
        luau.contains("\tfunction has(self, registration: ScriptComponentRegistration): number\n"),
        "{luau}"
    );
    assert!(
        luau.contains("\tcast: <T>(self: ReflectReference, registration: TypeReg<T>) -> T?\n"),
        "{luau}"
    );
}

#[test]
fn the_identity_of_a_function_is_what_it_renders_to() {
    let lad = file(vec![], registrations(), vec![]);
    let converter = Converter::new(&lad, &Options::default());
    let place = Place { owner: None, is_base: false };
    let generic = global_fn(
        "f",
        vec![arg("registration", value_of("c")), arg("value", reference())],
        unit(),
    );
    let plain = global_fn(
        "f",
        vec![
            arg("registration", value_of("c")),
            arg("value", LadFieldOrVariableKind::Primitive(ReflectionPrimitiveKind::ScriptValue)),
        ],
        unit(),
    );
    assert_eq!(converter.signature_key(&place, &generic), "f<T>(Reg<T>, T) -> nil");
    assert_eq!(
        converter.signature_key(&place, &plain),
        "f(ScriptComponentRegistration, any) -> nil"
    );
    let method = member("x", "a-b", vec![unnamed(value_of("c")), unnamed(number())], unit());
    let owner = Place { owner: Some("ScriptComponentRegistration"), is_base: false };
    assert_eq!(
        converter.signature_key(&owner, &method),
        "a_b(ScriptComponentRegistration, number) -> nil"
    );
}

#[test]
fn collapsing_twice_is_collapsing_once() {
    let functions = vec![
        global_fn("g", vec![], number()),
        global_fn("f", vec![arg("x", number())], number()),
        global_fn("f", vec![unnamed(number())], number()),
        global_fn("f", vec![], number()),
    ];
    let lad = file(vec![], vec![], functions);
    let converter = Converter::new(&lad, &Options::default());
    let place = Place { owner: None, is_base: false };
    let once = converter.dedupe_overloads(&place, &vec![0, 1, 2, 3]);
    assert_eq!(once, vec![3, 1, 0]);
    assert_eq!(converter.dedupe_overloads(&place, &once), once);
}

#[test]
fn what_is_left_out_is_warned_about() {
    let fields = || vec![field("a-b", number()), field("a_b", text())];
    assert_eq!(skipped_fields(&fields()), vec![1]);
    let lad = file(
        vec![],
        vec![reference_type("ref"), type_of("s", "S", plain_struct(fields()))],
        vec![
            member("s", "end", vec![], number()),
            member("s", "fine", vec![], number()),
            member("ref", "repeat", vec![unnamed(reference())], number()),
        ],
    );
    let field_warning = "skipping field `a_b` on `S`: key `a_b` is already taken";
    let expected = |list: &[&str]| -> Vec<String> { list.iter().map(|s| s.to_string()).collect() };
    assert_eq!(
        lad_warnings(&lad, &Options { init_types: false }),
        expected(&[
            "skipping `repeat` on `ReflectReference`: name is a reserved Luau keyword",
            field_warning,
            "skipping `end` on `S`: name is a reserved Luau keyword",
        ])
    );
    // The payload alias leaves the field out as well.
    assert_eq!(
        lad_warnings(&lad, &Options::default())
            .iter()
            .filter(|warning| warning.as_str() == field_warning)
            .count(),
        2
    );
    assert_eq!(LuauLadPlugin::default().warnings(&lad), lad_warnings(&lad, &Options::default()));
    let converter = Converter::new(&lad, &Options::default());
    assert_eq!(converter.skipped_members(&vec![0, 1, 2]), vec![0, 2]);
}

#[test]
fn the_order_of_the_file_is_irrelevant() {
    let types = || {
        let mut list = registrations();
        list.push(reference_type("ref"));
        list.push(type_of("p", "Point", plain_struct(vec![field("x", number())])));
        list.push(type_of(
            "e",
            "State",
            LadTypeLayout::Enum(vec![LadVariant::Unit { name: "On".to_string() }]),
        ));
        list
    };
    let functions = || {
        vec![
            member("p", "length", vec![unnamed(value_of("p"))], number()),
            member("p", "length", vec![arg("point", value_of("p"))], number()),
            member("p", "add", vec![unnamed(value_of("p")), arg("rhs", number())], value_of("p")),
            member("p", "add", vec![unnamed(value_of("p")), unnamed(value_of("p"))], value_of("p")),
            member("ref", "variant_name", vec![unnamed(reference())], text()),
            member("ref", "len", vec![unnamed(reference())], number()),
            member("ref", "len", vec![arg("reference", reference())], number()),
            member("ref", "size", vec![unnamed(reference())], number()),
            global_fn("make", vec![arg("registration", value_of("c"))], reference()),
            global_fn("alone", vec![], unit()),
        ]
    };
    let globals = || vec![("world", value_of("p")), ("state", value_of("e")), ("n", number())];
    let straight = file(globals(), types(), functions());
    let reversed = file(
        globals().into_iter().rev().collect(),
        types().into_iter().rev().collect(),
        functions().into_iter().rev().collect(),
    );
    assert_eq!(lad_to_luau(&straight), lad_to_luau(&reversed));
}

#[test]
fn variants_go_by_their_names() {
    let variants = vec![
        LadVariant::Unit { name: "U".to_string() },
        LadVariant::TupleStruct { name: "T".to_string() },
        LadVariant::Struct { name: "S".to_string(), fields: vec![] },
    ];
    assert_eq!(lad_variant_name(&variants[0]), "U");
    assert_eq!(lad_variant_name(&variants[1]), "T");
    assert_eq!(lad_variant_name(&variants[2]), "S");
    assert_eq!(variant_union(&variants), "\"U\" | \"T\" | \"S\"");
}

#[test]
fn types_with_nothing_to_fill_in_get_no_alias() {
    let luau = lad_to_luau(&file(
        vec![],
        vec![
            type_of("e", "Never", LadTypeLayout::Enum(vec![])),
            type_of("s", "Empty", plain_struct(vec![])),
            type_of(
                "t",
                "Tuple",
                LadTypeLayout::MonoVariant(LadVariant::TupleStruct { name: "Tuple".to_string() }),
            ),
        ],
        vec![],
    ));
    assert!(!luau.contains("Init"), "{luau}");
    assert!(!luau.contains("Variant"), "{luau}");
}

#[test]
fn copies_collapse_to_the_best_documented_one() {
    let mut documented = member(
        "m",
        "mul",
        vec![unnamed(value_of("m")), arg("rhs", value_of("m"))],
        value_of("m"),
    );
    documented.documentation = Some("Multiplies.".to_string());
    let plain = member("m", "mul", vec![unnamed(value_of("m")), unnamed(value_of("m"))], value_of("m"));
    let other = member("m", "mul", vec![unnamed(value_of("m")), arg("rhs", number())], value_of("m"));
    assert_eq!(doc_score(&documented), 2);
    assert_eq!(doc_score(&plain), 0);
    assert_eq!(doc_score(&other), 1);
    let luau = lad_to_luau(&file(
        vec![],
        vec![type_of("m", "Marker", LadTypeLayout::Opaque)],
        vec![plain, other, documented],
    ));
    assert!(
        luau.contains(
            "with\n\t-- Multiplies.\n\tfunction mul(self, rhs: Marker): Marker\n\tfunction mul(self, rhs: number): Marker\nend\n"
        ),
        "{luau}"
    );
}

#[test]
fn ties_keep_the_first_copy() {
    let luau = lad_to_luau(&file(
        vec![],
        vec![],
        vec![
            global_fn("f", vec![arg("first", number())], number()),
            global_fn("f", vec![arg("second", number())], number()),
        ],
    ));
    assert!(luau.ends_with("declare function f(first: number): number\n\n"), "{luau}");
    assert!(!luau.contains("second"), "{luau}");
}

#[test]
fn the_base_class_has_no_copies_either() {
    let luau = lad_to_luau(&file(
        vec![],
        vec![reference_type("ref")],
        vec![
            member("ref", "len", vec![unnamed(reference())], number()),
            member("ref", "display", vec![unnamed(reference())], text()),
            member("ref", "len", vec![arg("reference", reference())], number()),
            member("ref", "len", vec![unnamed(reference()), arg("deep", number())], number()),
        ],
    ));
    assert_eq!(
        luau,
        format!(
            "{HEADER}declare extern type ReflectReference with\n\tfunction display(self): string\n\tfunction len(self): number\n\tfunction len(self, deep: number): number\nend\n\n"
        )
    );
}

#[test]
fn names_that_render_alike_collapse() {
    let luau = lad_to_luau(&file(
        vec![],
        vec![],
        vec![
            global_fn("a-b", vec![unnamed(number())], number()),
            global_fn("a_b", vec![arg("x", number())], number()),
        ],
    ));
    assert_eq!(luau.matches("declare function a_b(").count(), 1, "{luau}");
    assert!(luau.contains("declare function a_b(x: number): number\n"), "{luau}");
}

#[test]
fn overloads_that_differ_only_when_generic_are_kept() {
    // Both take a registration; one returns a reference, the other any value.
    let luau = lad_to_luau(&file(
        vec![],
        registrations(),
        vec![
            global_fn("get", vec![arg("registration", value_of("c"))], reference()),
            global_fn(
                "get",
                vec![arg("registration", value_of("c"))],
                LadFieldOrVariableKind::Primitive(ReflectionPrimitiveKind::ScriptValue),
            ),
        ],
    ));
    assert!(luau.contains("declare function get<T>(registration: Reg<T>): T\n"), "{luau}");
    assert!(
        luau.contains("declare function get(registration: ScriptComponentRegistration): any\n"),
        "{luau}"
    );
}

#[test]
fn generic_signatures_follow_the_shape() {
    let lad = file(vec![], registrations(), vec![]);
    let converter = Converter::new(&lad, &Options::default());
    let brand = |s: &str| Some((0, s.to_string()));
    let one = [arg("registration", value_of("c"))];
    assert_eq!(converter.genericize(&one, &reference()), brand("Reg<T>"));
    // No reference at all.
    assert_eq!(converter.genericize(&one, &number()), None);
    // Two registrations.
    let two = [arg("a", value_of("c")), arg("b", value_of("r"))];
    assert_eq!(converter.genericize(&two, &reference()), None);
    // A reference in the last argument.
    let value = [arg("registration", value_of("r")), arg("value", reference())];
    assert_eq!(converter.genericize(&value, &unit()), brand("ResReg<T>"));
    // A reference elsewhere.
    let handle = [arg("handle", reference()), arg("registration", value_of("t"))];
    assert_eq!(converter.genericize(&handle, &reference()), None);
    assert_eq!(
        converter.registration_brand(&LadFieldOrVariableKind::Union(vec![
            value_of("t"),
            LadFieldOrVariableKind::Union(vec![value_of("c"), value_of("t")]),
        ])),
        Some("TypeReg<T> | Reg<T>".to_string())
    );
    assert_eq!(
        converter.registration_brand(&LadFieldOrVariableKind::Union(vec![value_of("t"), number()])),
        None
    );
    assert_eq!(converter.registration_brand(&LadFieldOrVariableKind::Union(vec![])), None);
}

#[test]
fn the_owned_registration_type_is_preferred() {
    let mut types = vec![
        type_of("aaa::ScriptComponentRegistration", "ScriptComponentRegistration", LadTypeLayout::Opaque),
        type_of(
            "bevy_mod_scripting_core::z::ScriptComponentRegistration",
            "ScriptComponentRegistration",
            LadTypeLayout::Opaque,
        ),
        type_of(
            "bevy_mod_scripting_core::b::ScriptComponentRegistration",
            "ScriptComponentRegistration",
            LadTypeLayout::Opaque,
        ),
    ];
    let lad = file(vec![], types.drain(..).collect(), vec![]);
    let converter = Converter::new(&lad, &Options::default());
    assert_eq!(converter.regs, [Some(2), None, None]);
    let luau = converter.render();
    assert!(
        luau.contains("export type Reg<T> = ScriptComponentRegistration__ & { __component: T }\n\n"),
        "{luau}"
    );
}

#[test]
fn the_types_table_lists_known_types() {
    let mut types = registrations();
    let mut component = type_of("h", "Health", LadTypeLayout::Opaque);
    component.1.metadata.is_component = true;
    let mut resource = type_of("rules", "Rules", LadTypeLayout::Opaque);
    resource.1.metadata.is_resource = true;
    let mut generic = type_of("g", "Generic", LadTypeLayout::Opaque);
    generic.1.generics.push("T".to_string());
    types.push(component);
    types.push(resource);
    types.push(generic);
    types.push(type_of("w", "With<T>", LadTypeLayout::Opaque));
    let map = LadFieldOrVariableKind::HashMap(
        Box::new(text()),
        Box::new(LadFieldOrVariableKind::Union(vec![value_of("c"), value_of("r")])),
    );
    let luau = lad_to_luau(&file(vec![("types", map)], types, vec![]));
    let table = "declare types: {
\tHealth: Reg<Health>,
\tRules: ResReg<Rules>,
\tScriptComponentRegistration: TypeReg<ScriptComponentRegistration>,
\tScriptResourceRegistration: TypeReg<ScriptResourceRegistration>,
\tScriptTypeRegistration: TypeReg<ScriptTypeRegistration>,
\t[string]: ScriptComponentRegistration | ScriptResourceRegistration,
}
";
    assert!(luau.ends_with(table), "{luau}");
}

#[test]
fn untyped_and_unbindable_globals_are_skipped() {
    let luau = lad_to_luau(&file(
        vec![
            ("end", number()),
            ("opaque", reference()),
            ("missing", value_of("absent")),
            ("9", text()),
        ],
        vec![],
        vec![],
    ));
    assert_eq!(luau, format!("{HEADER}declare _9: string\ndeclare missing: any\n"));
}

#[test]
fn keyword_functions_are_skipped_wherever_they_stand() {
    let luau = lad_to_luau(&file(
        vec![],
        vec![type_of("p", "Point", LadTypeLayout::Opaque)],
        vec![
            member("p", "end", vec![], number()),
            global_fn("repeat", vec![], number()),
            global_fn("fine", vec![arg("end", number())], unit()),
        ],
    ));
    assert_eq!(
        luau,
        format!(
            "{HEADER}declare extern type Point with\nend\n\ndeclare function fine(arg0: number): nil\n\n"
        )
    );
}

#[test]
fn variant_name_is_narrowed_only_where_it_is_backed() {
    let variants = || LadTypeLayout::Enum(vec![LadVariant::Unit { name: "On".to_string() }]);
    let backing = || member("ref", "variant_name", vec![arg("reference", reference())], text());
    let narrowed = "\tfunction variant_name(self): StateVariant\n";

    let backed = file(
        vec![],
        vec![reference_type("ref"), type_of("s", "State", variants())],
        vec![backing()],
    );
    assert!(lad_to_luau(&backed).contains(narrowed));

    let unbacked = file(
        vec![],
        vec![reference_type("ref"), type_of("s", "State", variants())],
        vec![member("ref", "variant_name", vec![arg("reference", reference())], number())],
    );
    assert!(!lad_to_luau(&unbacked).contains(narrowed));

    let shadowed = file(
        vec![],
        vec![reference_type("ref"), type_of("s", "State", variants())],
        vec![backing(), member("s", "variant_name", vec![], number())],
    );
    let luau = lad_to_luau(&shadowed);
    assert!(!luau.contains(narrowed), "{luau}");
    assert!(luau.contains("\tvariant_name: () -> number\n"), "{luau}");
    let luau = lad_to_luau(&file(
        vec![],
        vec![reference_type("ref"), type_of("s", "State", variants())],
        vec![backing(), member("s", "variant-name", vec![], number())],
    ));
    assert!(!luau.contains(narrowed), "{luau}");
    assert!(luau.contains("\tvariant_name: () -> number\n"), "{luau}");
}

#[test]
fn the_call_context_is_not_passed_by_scripts() {
    let context = LadFieldOrVariableKind::Primitive(ReflectionPrimitiveKind::FunctionCallContext);
    let func = global_fn("f", vec![unnamed(context), arg("x", number())], unit());
    assert_eq!(script_args(&func).len(), 1);
    assert_eq!(arg_name(&script_args(&func)[0], 0), "x");
    assert_eq!(arg_name(&unnamed(number()), 12), "arg12");
    assert_eq!(arg_name(&arg("self-ish", number()), 0), "self_ish");
    assert_eq!(arg_name(&arg("end", number()), 3), "arg3");
}

#[test]
fn documented_names_match_the_signature() {
    let mut first = arg("end", number());
    first.documentation = Some("Where it ends.".to_string());
    let mut blank = arg("b", number());
    blank.documentation = Some("  ".to_string());
    let mut ret = unnamed(number());
    ret.documentation = Some("The\nrest.".to_string());
    let mut out = String::new();
    push_signature_docs(&mut out, "\t", &[first, blank], &ret);
    assert_eq!(out, "\t-- @param arg0 - Where it ends.\n\t-- @return The rest.\n");
}

#[test]
fn flags_are_listed_one_per_line() {
    assert_eq!(
        fflags_args(),
        "--flag:LuauTypeInferIterationLimit=10000000\n--flag:LuauTarjanChildLimit=1000000\n--flag:LuauTypeCloneIterationLimit=10000000\n--flag:LuauSolverConstraintLimit=100000\n--flag:LuauTypeInferRecursionLimit=2000\n"
    );
    assert_eq!(fflags_args().lines().count(), FFLAGS.len());
}

#[test]
fn the_plugin_says_which_files_to_write() {
    let lad = file(
        vec![],
        vec![type_of("p", "Point", plain_struct(vec![field("x", number())]))],
        vec![],
    );
    let plugin = LuauLadPlugin::default();
    assert_eq!(plugin.name(), "Luau definition file generator");
    assert_eq!(
        plugin.outputs(&lad),
        vec![(&"bindings.d.luau".to_string(), lad_to_luau(&lad))]
    );
    let both = LuauLadPlugin {
        filename: PathBuf::from("api.d.luau"),
        fflags_filename: Some(PathBuf::from("fflags.txt")),
        options: Options { init_types: false },
    };
    assert_eq!(
        both.outputs(&lad),
        vec![
            (
                &PathBuf::from("api.d.luau"),
                lad_to_luau_with(&lad, &Options { init_types: false }),
            ),
            (&PathBuf::from("fflags.txt"), fflags_args()),
        ]
    );
}
