//! End of Option List
use vstd::prelude::*;

verus! {

pub const KIND: u8 = 0;

/// Accepts exactly the option of this kind with no data.
pub fn from_option(option: (u8, &[u8])) -> (r: Result<(), &'static str>)
    ensures
        option.0 != KIND ==> r == Err::<(), &'static str>("`eol` kind mismatch."),
        option.0 == KIND && option.1@.len() != 0 ==> r == Err::<(), &'static str>(
            "`eol` expected no data.",
        ),
        r is Ok <==> option.0 == KIND && option.1@.len() == 0,
{
    if option.0 != KIND {
        return Err("`eol` kind mismatch.");
    } else if option.1.len() != 0 {
        return Err("`eol` expected no data.");
    }
    Ok(())
}

/// The option of this kind.
pub fn to_option() -> (r: Result<(u8, &'static [u8]), &'static str>)
    ensures
        r matches Ok(o) && o.0 == KIND && o.1@ == Seq::<u8>::empty(),
{
    let empty: &'static [u8] = &[];
    assert(empty@ =~= Seq::<u8>::empty());
    Ok((KIND, empty))
}

} // verus!
