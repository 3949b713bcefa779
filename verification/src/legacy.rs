//! The first wire format of the frontends: a flag byte (`1` to learn, `0`
//! to answer) followed by the raw UTF-8 text, ended by closing the
//! connection; an answer is the raw text read until the connection closes.

use vstd::prelude::*;
use crate::text::utf8;

verus! {

/// The bytes sent for `text`: the flag, then the text.
pub open spec fn legacy_frame(learn: bool, text: Seq<char>) -> Seq<u8> {
    seq![if learn {
        1u8
    } else {
        0u8
    }] + utf8(text)
}

/// The bytes that ask the backend to learn `text`.
pub fn save_frame(text: &str) -> (out: Vec<u8>)
    ensures
        out@ == legacy_frame(true, text@),
{
    let mut out = vec![1u8];
    let mut body = vstd::slice::slice_to_vec(text.as_bytes());
    out.append(&mut body);
    out
}

/// The bytes that ask the backend to answer `text`.
pub fn generate_frame(text: &str) -> (out: Vec<u8>)
    ensures
        out@ == legacy_frame(false, text@),
{
    let mut out = vec![0u8];
    let mut body = vstd::slice::slice_to_vec(text.as_bytes());
    out.append(&mut body);
    out
}

} // verus!
