//! Definitions generated from LAD files, as they are parsed.

use luau_lad_backend::ident::{field_key, is_reserved, sanitize, RESERVED};
use luau_lad_backend::lad::LadFile;
use luau_lad_backend::{
    fflags_args, lad_to_luau, lad_to_luau_with, parse_lad_file, source_to_luau, Options, FFLAGS,
};

/// A LAD file from its JSON source.
fn parse(source: &str) -> LadFile {
    parse_lad_file(source).unwrap()
}

/// The canonical example LAD file: every type is declared (not just a focused
/// or component subset), fields are optional, the global function is present,
/// and there is no opinionated branding or keyword fabrication.
#[test]
fn converts_example_ladfile() {
    let lad = parse(ladfile::EXAMPLE_LADFILE);
    let luau = lad_to_luau(&lad);

    // Plain and "container" types alike are declared — nothing is restricted to
    // components/resources, and nothing is hard-coded. The example file records
    // the ReflectReference proxy type, so every class extends the base class.
    assert!(
        luau.contains("declare extern type PlainStructType extends ReflectReference with"),
        "{luau}"
    );
    assert!(
        luau.contains("declare extern type EnumType extends ReflectReference with"),
        "{luau}"
    );
    assert!(
        luau.contains("declare extern type TupleStructType extends ReflectReference with"),
        "{luau}"
    );
    assert!(luau.contains("declare extern type ReflectReference with\n"), "{luau}");
    // A plain struct's fields are always present on a live reference, so
    // they are *not* optional. (Asserted on the whole member line: the
    // construct-payload alias below carries the same name optionally.)
    assert!(luau.contains("\tint_field: number\n"), "{luau}");
    assert!(!luau.contains("\tint_field: number?\n"), "{luau}");
    // Enum variant names are exported as a union alias, and the struct
    // variant's named field *is* optional — it belongs to one variant only.
    assert!(
        luau.contains("export type EnumTypeVariant = \"Unit\" | \"Struct\" | \"TupleStruct\""),
        "{luau}"
    );
    assert!(luau.contains("\tfield: number?\n"), "{luau}");
    // The example file has no ReflectReference `variant_name` function, so no
    // typed override may be fabricated.
    assert!(!luau.contains("function variant_name"), "{luau}");
    // Global function + a non-static instance handle.
    assert!(
        luau.contains("declare function hello_world(arg1: number): number"),
        "{luau}"
    );
    assert!(luau.contains("declare my_non_static_instance:"), "{luau}");

    // No fabricated keyword aliases.
    assert_no_keyword_fabrication(&luau);
}

/// The per-argument and return documentation the LAD file carries is
/// rendered, not dropped: `ladfile_builder` moves the `Arguments:` /
/// `Returns:` sections out of the main docstring, so a backend that renders
/// only the main docstring loses them entirely.
#[test]
fn renders_argument_and_return_docs() {
    let lad = parse(ladfile::EXAMPLE_LADFILE);
    let luau = lad_to_luau(&lad);

    assert!(
        luau.contains("-- @param ref_ - I am some docs for argument 1"),
        "{luau}"
    );
    assert!(
        luau.contains("-- @param tuple - I am some docs for argument 2"),
        "{luau}"
    );
    assert!(
        luau.contains("-- @return I am some docs for the return type"),
        "{luau}"
    );
    // The documented names match the rendered signature exactly.
    assert!(luau.contains("hello_world: (ref_: any, tuple:"), "{luau}");
}

/// A heterogeneous tuple's element type is the union of its members. Taking
/// only the first member's type would state something the value does not
/// guarantee — the one place the backend could quietly lie.
#[test]
fn renders_heterogeneous_tuples_as_a_union() {
    let lad = parse(ladfile::EXAMPLE_LADFILE);
    let luau = lad_to_luau(&lad);

    assert!(luau.contains("tuple: { number | string }"), "{luau}");
    // Unions of distinct Rust types that share a Luau type collapse.
    assert!(!luau.contains("string | string"), "{luau}");
}

/// `construct` takes an untyped `{ [string]: any }` payload, so the backend
/// exports a per-type payload alias to check the literal against. Entries
/// are optional (BMS applies the payload over `Default`), and types with
/// nothing to fill in get no alias.
#[test]
fn exports_construct_payload_aliases() {
    let lad = parse(ladfile::EXAMPLE_LADFILE);
    let luau = lad_to_luau(&lad);

    assert!(
        luau.contains("export type PlainStructTypeInit = {\n\tint_field: number?,\n}"),
        "{luau}"
    );
    // An enum's payload is its variant name, typed by the variant union.
    assert!(
        luau.contains("export type EnumTypeInit = { variant: EnumTypeVariant }"),
        "{luau}"
    );
    // A field-less type would get an alias that says nothing.
    assert!(!luau.contains("UnitTypeInit"), "{luau}");

    // Opt out and they are gone, without disturbing the class declarations.
    let bare = lad_to_luau_with(&lad, &Options { init_types: false });
    assert!(!bare.contains("Init"), "{bare}");
    assert!(bare.contains("\tint_field: number\n"), "{bare}");
}

/// Every generated file names the FFlags it needs, and the same list is
/// available programmatically.
#[test]
fn emits_fflag_header() {
    let lad = parse(ladfile::EXAMPLE_LADFILE);
    let luau = lad_to_luau(&lad);
    for (flag, value) in FFLAGS {
        assert!(luau.contains(&format!("--flag:{flag}={value}")), "{luau}");
        assert!(fflags_args().contains(&format!("--flag:{flag}={value}")));
    }
}

/// Functions pairing a registration argument with a `ReflectReference` get the
/// phantom-generic treatment; everything else keeps its honest signature.
#[test]
fn genericizes_registration_shaped_functions() {
    let src = r#"{
      "version": "0.19.0",
      "globals": {
        "types": { "is_static": false, "type_kind": { "hashMap": [
          { "primitive": "string" },
          { "union": [
            { "val": "bms::ScriptTypeRegistration" },
            { "union": [
              { "val": "bms::ScriptComponentRegistration" },
              { "val": "bms::ScriptResourceRegistration" }
            ] }
          ] }
        ] } },
        "world": { "is_static": false, "type_kind": { "val": "test::World" } }
      },
      "types": {
        "bevy_ecs::Entity": {
          "identifier": "Entity", "crate": "bevy_ecs", "path": "bevy_ecs::Entity",
          "layout": { "kind": "Struct", "name": "Entity", "fields": [] },
          "metadata": { "is_component": false, "is_resource": false,
            "is_reflect": true, "mapped_to_primitive_kind": null }
        },
        "test::Health": {
          "identifier": "Health", "crate": "test", "path": "test::Health",
          "layout": { "kind": "Struct", "name": "Health",
            "fields": [ { "name": "current", "type": { "primitive": "f64" } } ] },
          "metadata": { "is_component": true, "is_resource": false,
            "is_reflect": true, "mapped_to_primitive_kind": null }
        },
        "test::GameRules": {
          "identifier": "GameRules", "crate": "test", "path": "test::GameRules",
          "layout": { "kind": "Struct", "name": "GameRules", "fields": [] },
          "metadata": { "is_component": false, "is_resource": true,
            "is_reflect": true, "mapped_to_primitive_kind": null }
        },
        "test::World": {
          "identifier": "World", "crate": "test", "path": "test::World",
          "layout": { "kind": "Struct", "name": "World", "fields": [] },
          "metadata": { "is_component": false, "is_resource": false,
            "is_reflect": true, "mapped_to_primitive_kind": null }
        },
        "bms::ScriptComponentRegistration": {
          "identifier": "ScriptComponentRegistration", "crate": "bms",
          "path": "bms::ScriptComponentRegistration",
          "layout": { "kind": "Struct", "name": "ScriptComponentRegistration", "fields": [] },
          "metadata": { "is_component": false, "is_resource": false,
            "is_reflect": true, "mapped_to_primitive_kind": null }
        },
        "bms::ScriptResourceRegistration": {
          "identifier": "ScriptResourceRegistration", "crate": "bms",
          "path": "bms::ScriptResourceRegistration",
          "layout": { "kind": "Struct", "name": "ScriptResourceRegistration", "fields": [] },
          "metadata": { "is_component": false, "is_resource": false,
            "is_reflect": true, "mapped_to_primitive_kind": null }
        },
        "bms::ScriptTypeRegistration": {
          "identifier": "ScriptTypeRegistration", "crate": "bms",
          "path": "bms::ScriptTypeRegistration",
          "layout": { "kind": "Struct", "name": "ScriptTypeRegistration", "fields": [] },
          "metadata": { "is_component": false, "is_resource": false,
            "is_reflect": true, "mapped_to_primitive_kind": null }
        }
      },
      "functions": {
        "test::World::get_component": {
          "namespace": "test::World", "identifier": "get_component", "overload_index": null,
          "arguments": [
            { "kind": { "primitive": "functionCallContext" }, "name": "ctxt" },
            { "kind": { "val": "bevy_ecs::Entity" }, "name": "entity" },
            { "kind": { "val": "bms::ScriptComponentRegistration" }, "name": "registration" }
          ],
          "return_type": { "kind": { "interopResult": { "option": { "primitive": "reflectReference" } } } },
          "metadata": { "is_operator": false }
        },
        "test::World::insert_component": {
          "namespace": "test::World", "identifier": "insert_component", "overload_index": null,
          "arguments": [
            { "kind": { "primitive": "functionCallContext" }, "name": "ctxt" },
            { "kind": { "val": "bevy_ecs::Entity" }, "name": "entity" },
            { "kind": { "val": "bms::ScriptComponentRegistration" }, "name": "registration" },
            { "kind": { "primitive": "reflectReference" }, "name": "value" }
          ],
          "return_type": { "kind": { "tuple": [] } },
          "metadata": { "is_operator": false }
        },
        "test::World::has_component": {
          "namespace": "test::World", "identifier": "has_component", "overload_index": null,
          "arguments": [
            { "kind": { "primitive": "functionCallContext" }, "name": "ctxt" },
            { "kind": { "val": "bevy_ecs::Entity" }, "name": "entity" },
            { "kind": { "val": "bms::ScriptComponentRegistration" }, "name": "registration" }
          ],
          "return_type": { "kind": { "primitive": "bool" } },
          "metadata": { "is_operator": false }
        },
        "test::World::get_asset": {
          "namespace": "test::World", "identifier": "get_asset", "overload_index": null,
          "arguments": [
            { "kind": { "primitive": "functionCallContext" }, "name": "ctxt" },
            { "kind": { "primitive": "reflectReference" }, "name": "handle" },
            { "kind": { "val": "bms::ScriptTypeRegistration" }, "name": "registration" }
          ],
          "return_type": { "kind": { "interopResult": { "option": { "primitive": "reflectReference" } } } },
          "metadata": { "is_operator": false }
        },
        "::construct": {
          "namespace": null, "identifier": "construct", "overload_index": null,
          "arguments": [
            { "kind": { "primitive": "functionCallContext" }, "name": "ctxt" },
            { "kind": { "union": [
                { "val": "bms::ScriptTypeRegistration" },
                { "union": [
                  { "val": "bms::ScriptComponentRegistration" },
                  { "val": "bms::ScriptResourceRegistration" }
                ] }
              ] }, "name": "registration" },
            { "kind": { "hashMap": [ { "primitive": "string" }, { "primitive": "scriptValue" } ] }, "name": "payload" }
          ],
          "return_type": { "kind": { "interopResult": { "primitive": "reflectReference" } } },
          "metadata": { "is_operator": false }
        }
      }
    }"#;
    let lad = parse(src);
    let luau = lad_to_luau(&lad);

    // Brand aliases lead the file, anchored to the declared classes.
    for alias in [
        "export type Reg<T> = ScriptComponentRegistration & { __component: T }",
        "export type ResReg<T> = ScriptResourceRegistration & { __resource: T }",
        "export type TypeReg<T> = ScriptTypeRegistration & { __type: T }",
    ] {
        assert!(luau.contains(alias), "missing `{alias}`:\n{luau}");
    }

    // Registration + ReflectReference in return/value position => generic.
    assert!(
        luau.contains("\tget_component: <T>(entity: Entity, registration: Reg<T>) -> T?"),
        "{luau}"
    );
    assert!(
        luau.contains(
            "\tinsert_component: <T>(entity: Entity, registration: Reg<T>, value: T) -> nil"
        ),
        "{luau}"
    );
    // Union-of-registrations argument (construct) is genericized too.
    assert!(
        luau.contains(
            "declare function construct<T>(registration: TypeReg<T> | Reg<T> | ResReg<T>, \
             payload: { [string]: any }): T"
        ),
        "{luau}"
    );

    // No ReflectReference => untouched (brands still flow in via subtyping).
    assert!(
        luau.contains(
            "\thas_component: (entity: Entity, registration: ScriptComponentRegistration) -> boolean"
        ),
        "{luau}"
    );
    // ReflectReference in a non-trailing argument (an asset *handle*, not a
    // value of the registered type) => honestly untyped, not wrongly generic.
    assert!(
        luau.contains(
            "\tget_asset: (handle: any, registration: ScriptTypeRegistration) -> any?"
        ),
        "{luau}"
    );

    // The `types` global becomes a closed table: known non-generic types get
    // branded entries per their metadata, everything else hits the fallback.
    assert!(luau.contains("\tHealth: Reg<Health>,"), "{luau}");
    assert!(luau.contains("\tGameRules: ResReg<GameRules>,"), "{luau}");
    assert!(luau.contains("\tEntity: TypeReg<Entity>,"), "{luau}");
    assert!(
        luau.contains(
            "\t[string]: ScriptTypeRegistration | ScriptComponentRegistration | ScriptResourceRegistration,"
        ),
        "{luau}"
    );
}

/// Enums get an exported variant-name union and — when the registry records
/// the backing `ReflectReference::variant_name` function — a narrowed
/// `variant_name` override; every class extends the materialized
/// `ReflectReference` base class carrying the shared proxy methods.
#[test]
fn declares_enum_variants_and_reference_base_class() {
    let src = r#"{
      "version": "0.19.0",
      "globals": {},
      "types": {
        "bms::ReflectReference": {
          "identifier": "ReflectReference", "crate": "bms", "path": "bms::ReflectReference",
          "layout": null,
          "metadata": { "is_component": false, "is_resource": false,
            "is_reflect": true, "mapped_to_primitive_kind": "reflectReference" }
        },
        "demo::Stance": {
          "identifier": "Stance", "crate": "demo", "path": "demo::Stance",
          "layout": [
            { "kind": "Unit", "name": "Idle" },
            { "kind": "Unit", "name": "Aggressive" }
          ],
          "metadata": { "is_component": false, "is_resource": false,
            "is_reflect": true, "mapped_to_primitive_kind": null }
        },
        "demo::StanceVariant": {
          "identifier": "StanceVariant", "crate": "demo", "path": "demo::StanceVariant",
          "layout": { "kind": "Struct", "name": "StanceVariant", "fields": [] },
          "metadata": { "is_component": false, "is_resource": false,
            "is_reflect": true, "mapped_to_primitive_kind": null }
        },
        "demo::Mixed": {
          "identifier": "Mixed", "crate": "demo", "path": "demo::Mixed",
          "layout": [
            { "kind": "Unit", "name": "Off" },
            { "kind": "Struct", "name": "On", "fields": [
              { "name": "level", "type": { "primitive": "f64" } },
              { "name": "end", "type": { "primitive": "f64" } }
            ] },
            { "kind": "Struct", "name": "Boosted", "fields": [
              { "name": "level", "type": { "primitive": "str" } }
            ] },
            { "kind": "TupleStruct", "name": "Pulse", "fields": [
              { "type": { "primitive": "f64" } }
            ] }
          ],
          "metadata": { "is_component": false, "is_resource": false,
            "is_reflect": true, "mapped_to_primitive_kind": null }
        },
        "demo::Sneaky": {
          "identifier": "Sneaky", "crate": "demo", "path": "demo::Sneaky",
          "layout": [
            { "kind": "Unit", "name": "Plain" },
            { "kind": "Struct", "name": "Odd", "fields": [
              { "name": "variant_name", "type": { "primitive": "f64" } }
            ] }
          ],
          "metadata": { "is_component": false, "is_resource": false,
            "is_reflect": true, "mapped_to_primitive_kind": null }
        }
      },
      "functions": {
        "bms::ReflectReference::variant_name": {
          "namespace": "bms::ReflectReference", "identifier": "variant_name",
          "overload_index": null,
          "arguments": [
            { "kind": { "primitive": "functionCallContext" }, "name": "ctxt" },
            { "kind": { "primitive": "reflectReference" }, "name": "reference" }
          ],
          "return_type": { "kind": { "interopResult": { "option": { "primitive": "string" } } } },
          "metadata": { "is_operator": false }
        },
        "bms::ReflectReference::display": {
          "namespace": "bms::ReflectReference", "identifier": "display",
          "overload_index": null,
          "arguments": [
            { "kind": { "primitive": "functionCallContext" }, "name": "ctxt" },
            { "kind": { "primitive": "reflectReference" }, "name": "reference" }
          ],
          "return_type": { "kind": { "primitive": "string" } },
          "metadata": { "is_operator": false }
        }
      }
    }"#;
    let lad = parse(src);
    let luau = lad_to_luau(&lad);

    // The base class carries the proxy methods as colon-methods.
    assert!(luau.contains("declare extern type ReflectReference with\n"), "{luau}");
    assert!(
        luau.contains("\tfunction variant_name(self): string?"),
        "{luau}"
    );
    assert!(luau.contains("\tfunction display(self): string"), "{luau}");
    // Every declared class extends it.
    assert!(
        luau.contains("declare extern type Stance extends ReflectReference with"),
        "{luau}"
    );
    assert!(
        luau.contains("declare extern type Mixed extends ReflectReference with"),
        "{luau}"
    );

    // Variant unions: the alias name dodges the class that already claimed
    // `StanceVariant`, and the enum class narrows `variant_name` to it.
    assert!(
        luau.contains("export type StanceVariant_ = \"Idle\" | \"Aggressive\""),
        "{luau}"
    );
    assert!(
        luau.contains("\tfunction variant_name(self): StanceVariant_"),
        "{luau}"
    );
    assert!(
        luau.contains("export type MixedVariant = \"Off\" | \"On\" | \"Boosted\" | \"Pulse\""),
        "{luau}"
    );

    // Struct-variant fields merge: same name with different types unions,
    // keyword names stay quoted, tuple variants contribute nothing.
    assert!(luau.contains("\tlevel: (number | string)?"), "{luau}");
    assert!(luau.contains("\t[\"end\"]: number?"), "{luau}");
    assert!(!luau.contains("Pulse:"), "{luau}");

    // A real field named `variant_name` wins over the override (fields are
    // resolved first at runtime), while the union alias is still exported.
    assert!(luau.contains("\tvariant_name: number?"), "{luau}");
    assert!(
        !luau.contains("function variant_name(self): SneakyVariant"),
        "{luau}"
    );
    assert!(
        luau.contains("export type SneakyVariant = \"Plain\" | \"Odd\""),
        "{luau}"
    );

    assert_no_keyword_fabrication(&luau);
}

/// Reserved Luau identifiers are handled honestly: keyword-named functions are
/// skipped (a renamed binding would have nothing backing it), keyword-named
/// fields are preserved via a quoted, reflect-backed key.
#[test]
fn handles_reserved_identifiers() {
    let src = r#"{
      "version": "0.19.0",
      "globals": {},
      "types": {
        "demo::Thing": {
          "identifier": "Thing",
          "crate": "demo",
          "path": "demo::Thing",
          "layout": { "kind": "Struct", "name": "Thing",
            "fields": [
              { "name": "do", "type": { "primitive": "f64" } },
              { "name": "ok", "type": { "primitive": "f64" } }
            ] },
          "metadata": { "is_component": false, "is_resource": false,
            "is_reflect": true, "mapped_to_primitive_kind": null }
        }
      },
      "functions": {
        "demo::Thing::end": {
          "namespace": "demo::Thing", "identifier": "end", "overload_index": null,
          "arguments": [ { "kind": { "ref": "demo::Thing" }, "name": "self" } ],
          "return_type": { "kind": { "primitive": "f64" } },
          "metadata": { "is_operator": false }
        },
        "demo::Thing::value": {
          "namespace": "demo::Thing", "identifier": "value", "overload_index": null,
          "arguments": [ { "kind": { "ref": "demo::Thing" }, "name": "self" } ],
          "return_type": { "kind": { "primitive": "f64" } },
          "metadata": { "is_operator": false }
        }
      }
    }"#;
    let lad = parse(src);
    let luau = lad_to_luau(&lad);

    // Keyword field preserved by quoting; non-keyword field bare.
    assert!(luau.contains("[\"do\"]: number?"), "{luau}");
    assert!(luau.contains("ok: number?"), "{luau}");
    // Keyword-named method skipped, normal method kept.
    assert!(luau.contains("function value(self): number"), "{luau}");
    assert!(
        !luau.contains("function end"),
        "keyword method must be skipped: {luau}"
    );
    // Crucially, no fabricated `end_` / `do_` aliases.
    assert_no_keyword_fabrication(&luau);
}

/// No reserved keyword is fabricated into a `keyword_` alias, and none is
/// emitted as a bare binding name. Tokens are split on non-identifier characters
/// so legitimate names like `plain_struct_function` (which contains `in_`) are
/// not flagged, and keyword *syntax* (`function`, `end`, `nil`) is left alone.
fn assert_no_keyword_fabrication(luau: &str) {
    for tok in luau.split(|c: char| !c.is_ascii_alphanumeric() && c != '_') {
        for kw in RESERVED {
            assert_ne!(
                tok,
                format!("{kw}_"),
                "fabricated keyword alias `{kw}_` in:\n{luau}"
            );
        }
    }
    // A reserved word can only appear as a *name* in a field/method/global
    // position; the class terminator `end`, `function`, and `nil` are syntax.
    for line in luau.lines() {
        let t = line.trim_start();
        for kw in RESERVED {
            assert!(
                !t.starts_with(&format!("{kw}:"))
                    && !t.starts_with(&format!("function {kw}("))
                    && !t.starts_with(&format!("declare {kw}:")),
                "reserved keyword `{kw}` used as a bare binding name: {line}"
            );
        }
    }
}

/// A LAD file where `mul` is registered three times: twice with identical
/// argument and return *types* (once with names, once without — the shape
/// BMS produces for operator impls) and once genuinely different.
const OVERLOADS_LADFILE: &str = r#"{
  "version": "0.19.0",
  "globals": {},
  "types": {
    "demo::Marker": {
      "identifier": "Marker", "crate": "demo", "path": "demo::Marker",
      "layout": { "kind": "Struct", "name": "Marker", "fields": [
        { "name": "weight", "type": { "primitive": "f64" } } ] },
      "metadata": { "is_component": true, "is_resource": false,
        "is_reflect": true, "mapped_to_primitive_kind": null }
    },
    "demo::Scale": {
      "identifier": "Scale", "crate": "demo", "path": "demo::Scale",
      "layout": { "kind": "Struct", "name": "Scale", "fields": [] },
      "metadata": { "is_component": false, "is_resource": false,
        "is_reflect": true, "mapped_to_primitive_kind": null }
    }
  },
  "functions": {
    "demo::Marker::mul": {
      "namespace": "demo::Marker", "identifier": "mul", "overload_index": null,
      "arguments": [
        { "kind": { "ref": "demo::Marker" }, "name": "self" },
        { "kind": { "ref": "demo::Marker" }, "name": "rhs",
          "documentation": "The other marker." } ],
      "return_type": { "kind": { "ref": "demo::Marker" } },
      "metadata": { "is_operator": false }
    },
    "demo::Marker::mul#1": {
      "namespace": "demo::Marker", "identifier": "mul", "overload_index": 1,
      "arguments": [
        { "kind": { "ref": "demo::Marker" } },
        { "kind": { "ref": "demo::Marker" } } ],
      "return_type": { "kind": { "ref": "demo::Marker" } },
      "metadata": { "is_operator": false }
    },
    "demo::Marker::mul#2": {
      "namespace": "demo::Marker", "identifier": "mul", "overload_index": 2,
      "arguments": [
        { "kind": { "ref": "demo::Marker" }, "name": "self" },
        { "kind": { "ref": "demo::Scale" }, "name": "rhs" } ],
      "return_type": { "kind": { "ref": "demo::Scale" } },
      "metadata": { "is_operator": false }
    }
  }
}"#;

/// Overloads that render to the same signature collapse to one — keeping
/// the better-documented copy — while genuinely distinct ones survive.
#[test]
fn dedupes_identical_overloads() {
    let lad = parse(OVERLOADS_LADFILE);
    let luau = lad_to_luau(&lad);

    assert_eq!(
        luau.matches("function mul(").count(),
        2,
        "expected exactly the two distinct `mul` overloads:\n{luau}"
    );
    // The surviving copy is the one carrying names and docs.
    assert!(
        luau.contains("function mul(self, rhs: Marker): Marker"),
        "{luau}"
    );
    assert!(luau.contains("-- @param rhs - The other marker."), "{luau}");
    // The genuinely different overload is untouched.
    assert!(
        luau.contains("function mul(self, rhs: Scale): Scale"),
        "{luau}"
    );
}

#[test]
fn sanitizes_and_escapes() {
    assert_eq!(sanitize("Handle<Image>"), "Handle_Image_");
    assert_eq!(field_key("end"), "[\"end\"]");
    assert_eq!(field_key("current"), "current");
    assert!(is_reserved("continue"));
}

/// Every primitive, read from JSON and written as a Luau type.
#[test]
fn every_primitive_is_read() {
    let names = [
        ("bool", "boolean"),
        ("isize", "number"),
        ("i8", "number"),
        ("i16", "number"),
        ("i32", "number"),
        ("i64", "number"),
        ("i128", "number"),
        ("usize", "number"),
        ("u8", "number"),
        ("u16", "number"),
        ("u32", "number"),
        ("u64", "number"),
        ("u128", "number"),
        ("f32", "number"),
        ("f64", "number"),
        ("char", "string"),
        ("str", "string"),
        ("string", "string"),
        ("osString", "string"),
        ("pathBuf", "string"),
        ("functionCallContext", "any"),
        ("dynamicFunction", "any"),
        ("scriptValue", "any"),
        ("dynamicFunctionMut", "any"),
        ("reflectReference", "any"),
    ];
    for (name, luau) in names {
        let source = format!(
            "{{\"version\":\"0.19.0\",\"globals\":{{\"g\":{{\"is_static\":false,\"type_kind\":{{\"vec\":{{\"primitive\":\"{name}\"}}}}}}}},\"types\":{{}},\"functions\":{{}}}}"
        );
        let lad = parse(&source);
        assert_eq!(format!("{:?}", lad.globals[0].1.type_kind).to_lowercase(), format!("vec(primitive({}))", name.to_lowercase()));
        assert!(lad_to_luau(&lad).ends_with(&format!("declare g: {{ {luau} }}\n")), "{name}");
    }
}

/// A primitive that is defined elsewhere keeps its name, and is written as `any`.
#[test]
fn a_primitive_from_elsewhere_is_read() {
    let source = "{\"version\":\"0.19.0\",\"globals\":{\"g\":{\"is_static\":false,\"type_kind\":\
        {\"vec\":{\"primitive\":{\"external\":\"Colour\"}}}}},\"types\":{},\"functions\":{}}";
    let lad = parse(source);
    assert_eq!(
        format!("{:?}", lad.globals[0].1.type_kind),
        "Vec(Primitive(External(\"Colour\")))"
    );
    assert!(lad_to_luau(&lad).ends_with("declare g: { any }\n"));
}

/// Every kind of value, read from JSON and written as a Luau type.
#[test]
fn every_kind_is_read() {
    let kinds = [
        ("{\"ref\":\"t::T\"}", "Tee"),
        ("{\"mut\":\"t::T\"}", "Tee"),
        ("{\"val\":\"t::T\"}", "Tee"),
        ("{\"unknown\":\"t::T\"}", "Tee"),
        ("{\"unknown\":\"t::U\"}", "any"),
        ("{\"option\":{\"primitive\":\"f64\"}}", "number?"),
        ("{\"vec\":{\"primitive\":\"f64\"}}", "{ number }"),
        ("{\"hashSet\":{\"primitive\":\"bool\"}}", "{ boolean }"),
        ("{\"array\":[{\"primitive\":\"f64\"},3]}", "{ number }"),
        ("{\"interopResult\":{\"primitive\":\"f64\"}}", "number"),
        ("{\"hashMap\":[{\"primitive\":\"str\"},{\"primitive\":\"f64\"}]}", "{ [string]: number }"),
        ("{\"tuple\":[{\"primitive\":\"str\"},{\"primitive\":\"f64\"}]}", "{ string | number }"),
        ("{\"union\":[{\"primitive\":\"f64\"},{\"primitive\":\"str\"}]}", "number | string"),
    ];
    for (kind, luau) in kinds {
        let source = format!(
            "{{\"version\":\"0.19.0\",\"globals\":{{\"g\":{{\"is_static\":false,\"type_kind\":{kind}}}}},\"types\":{{\"t::T\":{{\"identifier\":\"Tee\",\"crate\":\"t\",\"path\":\"t::T\",\"layout\":null,\"metadata\":{{\"is_component\":false,\"is_resource\":false,\"is_reflect\":true,\"mapped_to_primitive_kind\":null}}}}}},\"functions\":{{}}}}"
        );
        let defs = source_to_luau(&source, &Options::default()).unwrap();
        assert!(defs.ends_with(&format!("declare g: {luau}\n")), "{kind}: {defs}");
    }
}

/// What is read is what `ladfile` holds, and rendering a source is rendering
/// what is read from it.
#[test]
fn sources_are_read_as_ladfile_reads_them() {
    let lad = parse(ladfile::EXAMPLE_LADFILE);
    let file = ladfile::parse_lad_file(ladfile::EXAMPLE_LADFILE).unwrap();
    assert_eq!(lad.types.len(), file.types.len());
    for (own, (id, def)) in lad.types.iter().zip(file.types.iter()) {
        assert_eq!(own.0 .0, id.to_string());
        assert_eq!(own.1.identifier, def.identifier);
        assert_eq!(own.1.path, def.path);
        assert_eq!(own.1.documentation, def.documentation);
        assert_eq!(own.1.generics.len(), def.generics.len());
    }
    assert_eq!(lad.functions.len(), file.functions.len());
    for (own, func) in lad.functions.iter().zip(file.functions.values()) {
        assert_eq!(own.identifier, func.identifier.to_string());
        assert_eq!(own.arguments.len(), func.arguments.len());
    }
    let globals: Vec<String> = file.globals.keys().map(|name| name.to_string()).collect();
    let own: Vec<String> = lad.globals.iter().map(|(name, _)| name.clone()).collect();
    assert_eq!(own, globals);
    assert_eq!(
        source_to_luau(ladfile::EXAMPLE_LADFILE, &Options::default()).unwrap(),
        lad_to_luau(&lad)
    );
}

/// A file that `ladfile` writes back reads the same.
#[test]
fn a_file_written_back_renders_the_same() {
    let file = ladfile::parse_lad_file(ladfile::EXAMPLE_LADFILE).unwrap();
    let again = ladfile::serialize_lad_file(&file, false).unwrap();
    assert_eq!(lad_to_luau(&parse(&again)), lad_to_luau(&parse(ladfile::EXAMPLE_LADFILE)));
}

/// What is no LAD file is refused with the parser's message.
#[test]
fn a_broken_source_is_refused() {
    let error = ladfile::parse_lad_file("{").unwrap_err();
    assert_eq!(parse_lad_file("{").unwrap_err().message, error.to_string());
    assert_eq!(
        source_to_luau("{", &Options::default()).unwrap_err().message,
        error.to_string()
    );
    assert!(parse_lad_file("{}").is_err());
}
