//! Filters that decide which files to keep when scanning for modules.
use vstd::prelude::*;
use vstd::string::StringSliceAdditionalSpecFns;

use crate::loader::{format_of_ext, format_of_path, lowered_extension};

verus! {

/// A rule a file path must satisfy.
pub trait Filter {
    /// Whether the rule accepts `path`.
    spec fn accepts(&self, path: &str) -> bool;

    fn matches(&self, path: &str) -> (r: bool)
        ensures
            r == self.accepts(path),
    ;
}

/// Keeps files whose extension, in any case, names a supported format.
pub struct SupportedFormat;

impl Filter for SupportedFormat {
    open spec fn accepts(&self, path: &str) -> bool {
        format_of_ext(lowered_extension(path.spec_bytes())) is Some
    }

    fn matches(&self, path: &str) -> (r: bool) {
        format_of_path(path).is_some()
    }
}

/// A set of filters that a path must all satisfy.
pub struct Filters<F: Filter> {
    filters: Vec<F>,
}

impl<F: Filter> View for Filters<F> {
    type V = Seq<F>;

    closed spec fn view(&self) -> Seq<F> {
        self.filters@
    }
}

impl<F: Filter> Filters<F> {
    pub fn new(filters: Vec<F>) -> (r: Self)
        ensures
            r@ == filters@,
    {
        Filters { filters }
    }

    /// Whether every filter accepts `path`; true where there are none.
    pub fn matches(&self, path: &str) -> (r: bool)
        ensures
            r == forall|i: int| 0 <= i < self@.len() ==> #[trigger] self@[i].accepts(path),
    {
        let mut i: usize = 0;
        while i < self.filters.len()
            invariant
                i <= self.filters@.len(),
                forall|j: int| 0 <= j < i ==> #[trigger] self.filters@[j].accepts(path),
            decreases self.filters@.len() - i,
        {
            if !self.filters[i].matches(path) {
                assert(!self@[i as int].accepts(path));
                return false;
            }
            i = i + 1;
        }
        true
    }
}

} // verus!
