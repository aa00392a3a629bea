//! SACK-Permitted
use vstd::prelude::*;

verus! {

pub const KIND: u8 = 4;

/// Accepts exactly the option of this kind with no data.
pub fn from_option(option: (u8, &[u8])) -> (r: Result<(), &'static str>)
    ensures
        option.0 != KIND ==> r == Err::<(), &'static str>("`sack_permitted` kind mismatch."),
        option.0 == KIND && option.1@.len() != 0 ==> r == Err::<(), &'static str>(
            "`sack_permitted` expected exactly 0 bytes.",
        ),
        r is Ok <==> option.0 == KIND && option.1@.len() == 0,
{
    if option.0 != KIND {
        return Err("`sack_permitted` kind mismatch.");
    } else if option.1.len() != 0 {
        return Err("`sack_permitted` expected exactly 0 bytes.");
    }
    Ok(())
}

/// The option of this kind.
pub fn to_option() -> (r: Result<(u8, &'static [u8]), &'static str>)
    ensures
        r matches Ok(o) && o.0 == KIND && o.1@ == Seq::<u8>::empty(),
{
    let empty: &'static [u8] = &[];
    assert(empty@ =~= Seq::<u8>::empty());
    Ok((KIND, empty))
}

} // verus!
