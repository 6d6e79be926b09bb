use vstd::prelude::*;

verus! {

/// A stand-in for the storage of window state.
pub struct MockStorageService {}

impl MockStorageService {
    pub fn new() -> (r: Self) {
        MockStorageService {}
    }
}

} // verus!
