use vstd::prelude::*;

verus! {

/// A source that project monitoring leaves out.
#[derive(Debug, Clone, PartialEq, Eq, Hash)]
pub struct IgnoredSource {
    pub id: String,
    pub source: String,
}

} // verus!
