//! The post-processor: which files a generation run writes.

use vstd::prelude::*;

use crate::lad::LadFile;
use crate::lad_to_luau_with;
use crate::naming;
use crate::options::{fflags_args, flag_lines, Options};
use crate::render::luau_text;
use crate::text::{concat, texts};
use crate::warnings::{file_warnings, lad_warnings};

verus! {

/// A post-processor that yields a native Luau `.d.luau` file.
///
/// On generation, [`outputs`](Self::outputs) gives the files to write into the
/// configured output directory. File names are held in whatever type the caller
/// writes files with; they are handed on as they are.
#[derive(Clone, Debug)]
pub struct LuauLadPlugin<P> {
    /// File name to write inside the generation output directory.
    pub filename: P,
    /// When set, also write the [`FFLAGS`](crate::options::FFLAGS) as
    /// `luau-lsp analyze` arguments to this file (one per line) inside the
    /// output directory, so build scripts and editor configs can read them from
    /// one place instead of each hard-coding the list.
    pub fflags_filename: Option<P>,
    /// Rendering options, see [`Options`].
    pub options: Options,
}

impl Default for LuauLadPlugin<String> {
    fn default() -> (r: Self)
        ensures
            r.filename@ == "bindings.d.luau"@,
            r.fflags_filename is None,
            r.options.init_types,
    {
        LuauLadPlugin {
            filename: "bindings.d.luau".to_owned(),
            fflags_filename: None,
            options: Options::default(),
        }
    }
}

impl<P> LuauLadPlugin<P> {
    /// What the processor is called.
    pub fn name(&self) -> (r: &'static str)
        ensures
            r@ == "Luau definition file generator"@,
    {
        "Luau definition file generator"
    }

    /// The files to write, in order: the name of each inside the output
    /// directory, and what it holds.
    pub fn outputs(&self, lad: &LadFile) -> (r: Vec<(&P, String)>)
        ensures
            r@.len() == if self.fflags_filename is Some {
                2nat
            } else {
                1nat
            },
            *r@[0].0 == self.filename,
            r@[0].1@ == luau_text(*lad, self.options),
            self.fflags_filename matches Some(name) ==> *r@[1].0 == name && r@[1].1@
                == concat(flag_lines(Seq::empty())),
    {
        let mut out: Vec<(&P, String)> = Vec::new();
        out.push((&self.filename, lad_to_luau_with(lad, &self.options)));
        if let Some(name) = &self.fflags_filename {
            out.push((name, fflags_args()));
        }
        out
    }

    /// What the definitions leave out, to be logged when they are written.
    pub fn warnings(&self, lad: &LadFile) -> (r: Vec<String>)
        ensures
            texts(r@) == file_warnings(*lad, naming::naming(*lad, self.options)),
    {
        lad_warnings(lad, &self.options)
    }
}

} // verus!
