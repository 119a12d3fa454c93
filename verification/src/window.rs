use vstd::prelude::*;

verus! {

/// Window functions applied to a frame before its spectrum is taken.
#[derive(Debug, Clone, Copy, PartialEq, Eq)]
pub enum WindowFunction {
    Hann,
}

} // verus!
