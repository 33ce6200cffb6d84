//! The shape of a parsed keymap configuration file: a list of entries, each
//! an ordered list of trigger strings plus an ordered list of context
//! predicates.  This crate does not interpret the entries; they are a passive
//! data shape handed back to the caller.
use vstd::prelude::*;

verus! {

/// One key binding: the keys that trigger it and the contexts it applies in.
pub struct KeymapEntry {
    pub keys: Vec<String>,
    pub context: Vec<ContextEntry>,
}

/// One context predicate of a binding.
pub struct ContextEntry {
    pub name: Context,
}

/// A context identifier: an open-ended string tag, not validated here.
pub enum Context {
    Other(String),
}

} // verus!
