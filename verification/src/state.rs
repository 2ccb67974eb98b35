//! The naming state of a build: debug mode, the atom-hoist threshold, class
//! numbers, file numbers, canonical files, file routes and responsive theme
//! tokens. Every function that reads or changes it takes it explicitly.
use vstd::prelude::*;
use bimap::BiHashMap;
use crate::class_map::ClassMap;
use crate::file_map::{empty_file_map, file_pairs, injective};
use crate::str_map::StrMap;

verus! {

/// Everything the naming functions remember between calls.
pub struct CssState {
    /// Readable class names (property, level, value, ...) instead of short ones.
    pub debug: bool,
    /// The atom-hoist threshold; 0 means disabled.
    pub atom_hoist: usize,
    /// Class numbers per file.
    pub class_map: ClassMap,
    /// File numbers, one-to-one.
    pub file_map: BiHashMap<String, usize>,
    /// Real file name to bucket-root file name.
    pub canonical_map: StrMap<String>,
    /// File name to the ids of the routes that include it.
    pub file_routes: StrMap<Vec<u32>>,
    /// Length theme tokens and their breakpoint levels.
    pub length_tokens: StrMap<Vec<u8>>,
    /// Shadow theme tokens and their breakpoint levels.
    pub shadow_tokens: StrMap<Vec<u8>>,
}

impl CssState {
    /// Every table is well formed and the file map is one-to-one.
    pub open spec fn wf(&self) -> bool {
        &&& self.class_map.wf()
        &&& injective(file_pairs(self.file_map))
        &&& self.canonical_map.wf()
        &&& self.file_routes.wf()
        &&& self.length_tokens.wf()
        &&& self.shadow_tokens.wf()
    }

    /// A fresh state: not debugging, no hoisting, every table empty.
    pub fn new() -> (r: CssState)
        ensures
            r.wf(),
            !r.debug,
            r.atom_hoist == 0,
            r.class_map@ == Seq::<(Seq<char>, Seq<(Seq<char>, usize)>)>::empty(),
            file_pairs(r.file_map) == Map::<Seq<char>, usize>::empty(),
            r.canonical_map@ == Seq::<(Seq<char>, String)>::empty(),
            r.file_routes@ == Seq::<(Seq<char>, Vec<u32>)>::empty(),
            r.length_tokens@ == Seq::<(Seq<char>, Vec<u8>)>::empty(),
            r.shadow_tokens@ == Seq::<(Seq<char>, Vec<u8>)>::empty(),
    {
        CssState {
            debug: false,
            atom_hoist: 0,
            class_map: ClassMap::new(),
            file_map: empty_file_map(),
            canonical_map: StrMap::new(),
            file_routes: StrMap::new(),
            length_tokens: StrMap::new(),
            shadow_tokens: StrMap::new(),
        }
    }
}

} // verus!
