//! The container: its in-memory form, its layout in bytes, and the codec
//! between the two.

pub mod format;
pub mod laws;
mod lemmas;
pub mod parser;
pub mod writer;

use crate::cmd::{Script, ScriptModel};
use vstd::prelude::*;
use vstd::std_specs::iter::IteratorSpec;

verus! {

/// A container in memory: the scripts of its script data, its string table,
/// and the entry point that its header names.
#[derive(Debug, PartialEq, Eq)]
pub struct MscsbFile {
    /// The scripts, in the order of their bytes in the script data.
    pub scripts: Vec<Script>,
    /// The texts of the string table, in the order of their slots.
    pub strings: Vec<String>,
    /// Offset into the script data at which execution starts.
    pub entrypoint: u32,
}

/// What a [`MscsbFile`] is to a contract.
pub struct Container {
    pub entrypoint: u32,
    pub scripts: Seq<ScriptModel>,
    pub strings: Seq<Seq<char>>,
}

/// The models of the scripts of a vector, in its order.
pub open spec fn script_models(scripts: Seq<Script>) -> Seq<ScriptModel> {
    Seq::new(scripts.len(), |i: int| scripts[i]@)
}

/// The texts of the strings of a vector, in its order.
pub open spec fn texts(strings: Seq<String>) -> Seq<Seq<char>> {
    Seq::new(strings.len(), |i: int| strings[i]@)
}

impl View for MscsbFile {
    type V = Container;

    open spec fn view(&self) -> Container {
        Container {
            entrypoint: self.entrypoint,
            scripts: script_models(self.scripts@),
            strings: texts(self.strings@),
        }
    }
}

impl MscsbFile {
    /// An iterator over the scripts of the container, in their order.
    pub fn iter(&self) -> (r: core::slice::Iter<'_, Script>)
        ensures
            r.remaining() == self.scripts@.as_ref(),
    {
        self.scripts.iter()
    }
}

} // verus!
