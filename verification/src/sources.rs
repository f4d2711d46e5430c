//! The registry of loaded sources, kept for diagnostics.

use vstd::prelude::*;

verus! {

/// One loaded source: an optional file name and the source text.
#[derive(Debug, Clone, PartialEq)]
pub struct Source {
    pub filename: Option<String>,
    pub src: String,
}

/// The source registry: sources in registration order, addressed by index.
#[derive(Debug, Clone, PartialEq)]
pub struct Sources {
    pub sources: Vec<Source>,
}

impl Sources {
    pub fn new() -> (r: Sources)
        ensures
            r.sources@ == Seq::<Source>::empty(),
    {
        Sources { sources: Vec::new() }
    }

    /// Register a source; its index is the identifier used in provenance.
    pub fn add_source(&mut self, source: Source) -> (r: usize)
        requires
            old(self).sources@.len() < usize::MAX,
        ensures
            final(self).sources@ == old(self).sources@.push(source),
            r == old(self).sources@.len(),
    {
        let r = self.sources.len();
        self.sources.push(source);
        r
    }

    /// The source registered under the given identifier, if any.
    pub fn get_source(&self, src_id: usize) -> (r: Option<&Source>)
        ensures
            match r {
                Some(s) => src_id < self.sources@.len() && *s == self.sources@[src_id as int],
                None => src_id >= self.sources@.len(),
            },
    {
        if src_id < self.sources.len() {
            Some(&self.sources[src_id])
        } else {
            None
        }
    }
}

impl Default for Sources {
    /// An empty registry, identical to [`Sources::new`].
    fn default() -> (r: Sources)
        ensures
            r.sources@ == Seq::<Source>::empty(),
    {
        Sources::new()
    }
}

} // verus!
