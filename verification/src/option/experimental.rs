//! Experimentals
use vstd::prelude::*;

verus! {

pub const KINDS: [u8; 3] = [76, 253, 254];

/// The format of experimental options is unknown: always an error.
pub fn from_option(tuple: (u8, &[u8])) -> (r: Result<(), &'static str>)
    ensures
        r == Err::<(), &'static str>("Unavailable, format unknown."),
{
    Err("Unavailable, format unknown.")
}

/// The format of experimental options is unknown: always an error.
pub fn to_option() -> (r: Result<(u8, &'static [u8]), &'static str>)
    ensures
        r == Err::<(u8, &'static [u8]), &'static str>("Unavailable, format unknown."),
{
    Err("Unavailable, format unknown.")
}

} // verus!
