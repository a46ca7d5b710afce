//! Config sync over WebDAV (or any HTTP PUT/GET endpoint): the request's
//! Basic authorization.

use vstd::prelude::*;
use crate::text::push_char;
use base64::Engine;

verus! {

/// What base64's standard engine (RFC 4648 alphabet, with padding) makes of
/// `data`.
pub uninterp spec fn base64_standard(data: Seq<u8>) -> Seq<char>;

/// base64's `engine::general_purpose::STANDARD.encode`: the text is named
/// by [`base64_standard`].
#[verifier::external_body]
fn base64_encode(data: &[u8]) -> (s: String)
    ensures
        s@ == base64_standard(data@),
{
    base64::engine::general_purpose::STANDARD.encode(data)
}

/// The credentials `user:pass` as UTF-8 bytes.
pub open spec fn credentials(user: Seq<char>, pass: Seq<char>) -> Seq<u8> {
    vstd::utf8::encode_utf8(user) + seq![58u8] + vstd::utf8::encode_utf8(pass)
}

/// The header value for an encoded token: `Basic <token>`.
pub fn basic_auth_header(token: &str) -> (h: String)
    ensures
        h@ == seq!['B', 'a', 's', 'i', 'c', ' '] + token@,
{
    let mut h = String::new();
    push_char(&mut h, 'B');
    push_char(&mut h, 'a');
    push_char(&mut h, 's');
    push_char(&mut h, 'i');
    push_char(&mut h, 'c');
    push_char(&mut h, ' ');
    let ghost start = h@;
    let cs = crate::text::chars_of(token);
    let mut i: usize = 0;
    while i < cs.len()
        invariant
            cs@ == token@,
            i <= cs@.len(),
            start == seq!['B', 'a', 's', 'i', 'c', ' '],
            h@ == start + cs@.take(i as int),
        decreases cs.len() - i,
    {
        push_char(&mut h, cs[i]);
        assert(cs@.take(i + 1) =~= cs@.take(i as int).push(cs@[i as int]));
        i = i + 1;
    }
    assert(cs@.take(cs@.len() as int) =~= cs@);
    h
}

/// The Basic authorization header value for `user` and `pass`.
pub fn basic_auth(user: &str, pass: &str) -> (h: String)
    ensures
        h@ == seq!['B', 'a', 's', 'i', 'c', ' '] + base64_standard(credentials(user@, pass@)),
{
    let mut cred: Vec<u8> = Vec::new();
    cred.extend_from_slice(user.as_bytes());
    cred.push(58u8);
    cred.extend_from_slice(pass.as_bytes());
    assert(cred@ =~= credentials(user@, pass@));
    let token = base64_encode(cred.as_slice());
    basic_auth_header(token.as_str())
}

/// The Authorization header to send, if any: none without a user name.
pub fn authorization(user: &str, pass: &str) -> (h: Option<String>)
    ensures
        user@.len() == 0 ==> h is None,
        user@.len() > 0 ==> (h matches Some(v) && v@ == seq!['B', 'a', 's', 'i', 'c', ' ']
            + base64_standard(credentials(user@, pass@))),
{
    if user.is_empty() {
        None
    } else {
        Some(basic_auth(user, pass))
    }
}

} // verus!
