//! Response codes.
use vstd::prelude::*;

verus! {

pub const NO_ERROR: u16 = 0;

pub const SERV_FAIL: u16 = 2;

pub const NX_DOMAIN: u16 = 3;

pub const REFUSED: u16 = 5;

} // verus!
