//! TCP Authentication
use vstd::prelude::*;
use vstd::slice::slice_subrange;

verus! {

pub const KIND: u8 = 29;

/// Reads the key id, the next receive key id and the message authentication code.
pub fn from_option<'a>(option: (u8, &'a [u8])) -> (r: Result<(u8, u8, &'a [u8]), &'static str>)
    ensures
        option.0 != KIND ==> r == Err::<(u8, u8, &'a [u8]), &'static str>(
            "`ao` kind mismatch.",
        ),
        option.0 == KIND && option.1@.len() < 2 ==> r == Err::<(u8, u8, &'a [u8]), &'static str>(
            "`ao` expected at least 2 bytes.",
        ),
        option.0 == KIND && option.1@.len() >= 2 ==> (r matches Ok(t) && t.0 == option.1@[0]
            && t.1 == option.1@[1] && t.2@ == option.1@.skip(2)),
{
    if option.0 != KIND {
        return Err("`ao` kind mismatch.");
    } else if option.1.len() < 2 {
        return Err("`ao` expected at least 2 bytes.");
    }
    Ok((option.1[0], option.1[1], slice_subrange(option.1, 2, option.1.len())))
}

/// The option of this kind that carries the two key ids and the code.
pub fn to_option<'a>(tuple: (u8, u8, &'a [u8])) -> (r: Result<(u8, Vec<u8>), &'static str>)
    ensures
        r matches Ok(o) && o.0 == KIND && o.1@ == seq![tuple.0, tuple.1] + tuple.2@,
{
    let mut bytes = Vec::<u8>::new();
    bytes.push(tuple.0);
    bytes.push(tuple.1);
    bytes.extend_from_slice(tuple.2);
    assert(bytes@ =~= seq![tuple.0, tuple.1] + tuple.2@);
    Ok((KIND, bytes))
}

/// The data `to_option` writes for the two key ids and the code, read by
/// `from_option`, gives them back.
pub proof fn lemma_roundtrip(key_id: u8, rnext_key_id: u8, mac: Seq<u8>)
    ensures
        ({
            let data = seq![key_id, rnext_key_id] + mac;
            &&& data.len() >= 2
            &&& data[0] == key_id
            &&& data[1] == rnext_key_id
            &&& data.skip(2) == mac
        }),
{
    assert((seq![key_id, rnext_key_id] + mac).skip(2) =~= mac);
}

// When computing the mac, this option field must be set to 0.

} // verus!
