//! Record types.
use vstd::prelude::*;

verus! {

pub const A: u16 = 1;

pub const CNAME: u16 = 5;

pub const AAAA: u16 = 28;

} // verus!
