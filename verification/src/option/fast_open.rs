//! TCP Fast Open
use vstd::prelude::*;
use vstd::slice::slice_to_vec;

verus! {

pub const KIND: u8 = 34;

/// The cookie lengths that an option of this kind may carry: none, or an
/// even length from 4 to 16.
pub open spec fn is_cookie_len(n: nat) -> bool {
    n == 0 || (4 <= n <= 16 && n % 2 == 0)
}

/// Reads the cookie: `None` for a cookie request, which carries no data.
pub fn from_option<'a>(option: (u8, &'a [u8])) -> (r: Result<Option<&'a [u8]>, &'static str>)
    ensures
        option.0 != KIND ==> r == Err::<Option<&'a [u8]>, &'static str>(
            "`fast_open` kind mismatch.",
        ),
        option.0 == KIND && !is_cookie_len(option.1@.len()) ==> r == Err::<
            Option<&'a [u8]>,
            &'static str,
        >("`fast_open` expected exactly 0 | 4 | 6 | 8 | 10 | 12 | 14 | 16 bytes."),
        option.0 == KIND && option.1@.len() == 0 ==> r == Ok::<Option<&'a [u8]>, &'static str>(
            None,
        ),
        option.0 == KIND && option.1@.len() != 0 && is_cookie_len(option.1@.len()) ==> r == Ok::<
            Option<&'a [u8]>,
            &'static str,
        >(Some(option.1)),
{
    if option.0 != KIND {
        return Err("`fast_open` kind mismatch.");
    }
    let n = option.1.len();
    if n == 0 {
        Ok(None)
    } else if n == 4 || n == 6 || n == 8 || n == 10 || n == 12 || n == 14 || n == 16 {
        Ok(Some(option.1))
    } else {
        Err("`fast_open` expected exactly 0 | 4 | 6 | 8 | 10 | 12 | 14 | 16 bytes.")
    }
}

/// The option of this kind that carries `cookie`.
pub fn to_option<'a>(cookie: &'a [u8]) -> (r: Result<(u8, Vec<u8>), &'static str>)
    ensures
        r matches Ok(o) && o.0 == KIND && o.1@ == cookie@,
{
    Ok((KIND, slice_to_vec(cookie)))
}

} // verus!
