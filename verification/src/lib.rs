//! Native **Luau** (`.d.luau`) definition-file backend for `bevy_mod_scripting`
//! LAD (Language Agnostic Definition) files.
//!
//! `bevy_mod_scripting` (BMS) ships LAD post-processors for the Lua Language
//! Server (`--- @class` `.lua`) and for mdbook, but no native Luau one — and
//! `luau-lsp` cannot consume the LuaLS dialect. This crate is that missing
//! backend: it turns a [`LadFile`] into `declare extern type … end` /
//! `declare name: T` definitions that `luau-lsp analyze --defs=…` checks scripts
//! against.
//!
//! Every type in the LAD file is declared dynamically from the registry — no type
//! is hard-coded by name. The public entry point [`lad_to_luau`] is a pure
//! `&LadFile -> String` conversion, and [`LuauLadPlugin`] says which files a
//! generation run writes.
//!
//! The reflection API BMS exposes to scripts is *dynamic*: functions like
//! `world.get_component` traffic in `ReflectReference` proxies whose concrete type
//! depends on the *registration value* passed at runtime, which the LAD file
//! records as an untyped primitive. To recover static types across that boundary,
//! the backend emits **phantom-typed registration brands**:
//!
//! ```luau
//! export type Reg<T> = ScriptComponentRegistration & { __component: T }
//! ```
//!
//! and rewrites every function that pairs a registration argument with a
//! `ReflectReference` into a generic signature
//! (`get_component: <T>(entity: Entity, registration: Reg<T>) -> T?`). The `types`
//! global is emitted as a closed table (`types: { Velocity: Reg<Velocity>, … }`),
//! so `world.get_component(e, types.Velocity)` infers `Velocity?` with no casts,
//! and wrong-component writes are compile errors. Script-registered dynamic
//! components join the scheme with a single cast:
//! `world.register_new_component("X") :: Reg<XShape>`. The brand's phantom field
//! never exists at runtime; it only carries `T` for type checking. The rewrite is
//! shape-driven (registration argument + `ReflectReference` positions), not
//! name-driven, so it applies to future BMS functions of the same shape
//! automatically. Whatever remains genuinely dynamic (`ScriptValue` payloads,
//! `DynamicFunction` callbacks) is typed `any`, which Luau treats permissively,
//! so such scripts still type-check.
//!
//! What the output is, character by character, is stated by
//! [`luau_text`](crate::render::luau_text), built up module by module; what holds
//! of every output is proved in [`laws`], in [`reorder`] and next to the functions
//! concerned.

pub mod alike;
pub mod classes;
pub mod cli;
pub mod converter;
pub mod docs;
pub mod fields;
pub mod ident;
pub mod kinds;
pub mod lad;
pub mod laws;
pub mod members;
pub mod naming;
pub mod options;
pub mod order;
pub mod overloads;
pub mod plugin;
pub mod render;
pub mod reorder;
pub mod signature;
pub mod source;
pub mod text;
pub mod types;
pub mod warnings;

use vstd::prelude::*;

use crate::converter::Converter;
use crate::lad::LadFile;
use crate::render::luau_text;

pub use crate::options::{fflags_args, Options, FFLAGS};
pub use crate::plugin::LuauLadPlugin;
pub use crate::source::{parse_lad_file, source_to_luau};
pub use crate::warnings::lad_warnings;

verus! {

/// Render a LAD file as Luau definition-file source, with default [`Options`].
///
/// This is the whole backend as a pure function; [`LuauLadPlugin`] just calls it
/// and says where the result is to be written.
pub fn lad_to_luau(lad: &LadFile) -> (r: String)
    ensures
        r@ == luau_text(*lad, (Options { init_types: true })),
{
    let options = Options::default();
    assert(options == Options { init_types: true });
    lad_to_luau_with(lad, &options)
}

/// [`lad_to_luau`], with control over the optional parts of the output.
pub fn lad_to_luau_with(lad: &LadFile, options: &Options) -> (r: String)
    ensures
        r@ == luau_text(*lad, *options),
{
    Converter::new(lad, options).render()
}

} // verus!
