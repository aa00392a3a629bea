//! Window Scale
use vstd::prelude::*;

verus! {

pub const KIND: u8 = 3;

/// Reads the shift count, the one data byte.
pub fn from_option(option: (u8, &[u8])) -> (r: Result<u8, &'static str>)
    ensures
        option.0 != KIND ==> r == Err::<u8, &'static str>("`window_scale` kind mismatch."),
        option.0 == KIND && option.1@.len() != 1 ==> r == Err::<u8, &'static str>(
            "`window_scale` expected exactly 1 bytes.",
        ),
        option.0 == KIND && option.1@.len() == 1 ==> r == Ok::<u8, &'static str>(option.1@[0]),
{
    if option.0 != KIND {
        return Err("`window_scale` kind mismatch.");
    } else if option.1.len() != 1 {
        return Err("`window_scale` expected exactly 1 bytes.");
    }
    Ok(option.1[0])
}

/// The option of this kind that carries `shift_count`.
pub fn to_option(shift_count: u8) -> (r: Result<(u8, Vec<u8>), &'static str>)
    ensures
        r matches Ok(o) && o.0 == KIND && o.1@ == seq![shift_count],
{
    let mut bytes = Vec::<u8>::new();
    bytes.push(shift_count);
    assert(bytes@ =~= seq![shift_count]);
    Ok((KIND, bytes))
}

} // verus!
