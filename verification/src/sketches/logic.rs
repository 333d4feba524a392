//! A method that is only reachable through a wrapper type.
use vstd::prelude::*;

verus! {

pub struct Wang;

impl Wang {
    pub fn foo(&self) {
    }
}

/// Wraps a value so that only chosen methods of it are reachable.
pub struct Safe<T>(pub T);

impl Safe<Wang> {
    pub fn safe_foo(&self) {
        self.0.foo();
    }
}

/// Calls `foo` directly and through the wrapper.
pub fn tyes() {
    let x = Wang;
    x.foo();
    let y = Safe(Wang);
    y.safe_foo();
}

} // verus!
