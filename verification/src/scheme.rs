//! The kinds of value that a scheme, the interface for callers outside the
//! language, carries.

use vstd::prelude::*;

verus! {

/// What a scheme holds.
#[derive(Debug, Clone, Copy, PartialEq, Eq, Structural)]
pub enum SchemeType {
    Concrete,
    Argument,
    Call,
    Future,
}

} // verus!
