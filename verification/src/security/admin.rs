//! Basic authentication on the admin plane.

use super::auth::secure_eq;
use super::shared;
use super::shared::SharedSecurity;
use crate::bytes::bytes_equal;
use base64::Engine;
use vstd::prelude::*;
use vstd::slice::slice_subrange;

verus! {

/// What the text stands for in base64, with the standard alphabet and
/// padding; nothing where it is no such text.
pub uninterp spec fn base64_decoded(text: Seq<u8>) -> Option<Seq<u8>>;

/// `base64::Engine::decode` of the standard engine. Its result is named, not
/// described.
#[verifier::external_body]
fn decode_base64(text: &[u8]) -> (r: Option<Vec<u8>>)
    ensures
        shared::content(r) == base64_decoded(text@),
{
    base64::engine::general_purpose::STANDARD.decode(text).ok()
}

/// `Basic `, in front of the credentials.
pub open spec fn scheme() -> Seq<u8> {
    seq![66u8, 97u8, 115u8, 105u8, 99u8, 32u8]
}

/// The place of the first colon, or the length where there is none.
pub open spec fn colon(s: Seq<u8>) -> int
    decreases s.len(),
{
    if s.len() == 0 {
        0
    } else if s[0] == 58 {
        0
    } else {
        1 + colon(s.skip(1))
    }
}

/// Credentials `user:password` have the password.
pub open spec fn has_password(credentials: Seq<u8>, password: Seq<u8>) -> bool {
    colon(credentials) < credentials.len() && credentials.skip(colon(credentials) + 1) == password
}

/// Whether a request is let in: always where no password is set; else with
/// credentials that have it.
pub open spec fn admits(password: Option<Seq<u8>>, credentials: Option<Seq<u8>>) -> bool {
    match password {
        None => true,
        Some(p) => credentials matches Some(c) && has_password(c, p),
    }
}

/// What an authorization header says in base64, where it uses the scheme.
pub open spec fn encoded_credentials(header: Option<Seq<u8>>) -> Option<Seq<u8>> {
    match header {
        Some(h) => if h.len() >= 6 && h.take(6) == scheme() {
            Some(h.skip(6))
        } else {
            None
        },
        None => None,
    }
}

/// The first colon is the first: nothing before it is one.
pub proof fn colon_is_first(s: Seq<u8>, i: int)
    requires
        0 <= i <= s.len(),
        forall|j: int| 0 <= j < i ==> s[j] != 58,
        i == s.len() || s[i] == 58,
    ensures
        colon(s) == i,
    decreases s.len(),
{
    if i > 0 {
        assert(s[0] != 58);
        assert forall|j: int| 0 <= j < i - 1 implies s.skip(1)[j] != 58 by {
            assert(s.skip(1)[j] == s[j + 1]);
        }
        colon_is_first(s.skip(1), i - 1);
    }
}

/// Whether decoded credentials let a request in.
pub fn credentials_admit(password: &Option<Vec<u8>>, credentials: &Option<Vec<u8>>) -> (yes: bool)
    ensures
        yes == admits(shared::content(*password), shared::content(*credentials)),
{
    let p = match password {
        Some(p) => p,
        None => {
            return true;
        },
    };
    let c = match credentials {
        Some(c) => c,
        None => {
            return false;
        },
    };
    let mut i: usize = 0;
    while i < c.len() && c[i] != 58
        invariant
            i <= c@.len(),
            forall|j: int| 0 <= j < i ==> c@[j] != 58,
        decreases c@.len() - i,
    {
        i = i + 1;
    }
    proof {
        colon_is_first(c@, i as int);
    }
    if i == c.len() {
        return false;
    }
    let given = slice_subrange(c.as_slice(), i + 1, c.len());
    assert(given@ =~= c@.skip(i + 1));
    secure_eq(p.as_slice(), given)
}

/// Whether a request with an authorization header, or none, may use the admin
/// plane.
pub fn is_admin_authorized<T>(sec: &SharedSecurity<T>, header: Option<&[u8]>) -> (yes: bool)
    ensures
        yes == ({
            let h = match header {
                Some(h) => Some(h@),
                None => None,
            };
            let credentials = match encoded_credentials(h) {
                Some(text) => base64_decoded(text),
                None => None,
            };
            admits(sec@.http_token, credentials)
        }),
{
    let mut credentials: Option<Vec<u8>> = None;
    if let Some(h) = header {
        let basic: Vec<u8> = vec![66u8, 97u8, 115u8, 105u8, 99u8, 32u8];
        assert(basic@ =~= scheme());
        if h.len() >= 6 {
            let front = slice_subrange(h, 0, 6);
            assert(front@ =~= h@.take(6));
            if bytes_equal(front, basic.as_slice()) {
                let text = slice_subrange(h, 6, h.len());
                assert(text@ =~= h@.skip(6));
                credentials = decode_base64(text);
            }
        }
    }
    credentials_admit(&sec.http_token(), &credentials)
}

/// Of credentials the password is what follows the first colon, be there
/// others in it or not; the name before it does not matter.
pub proof fn names_do_not_matter(name: Seq<u8>, password: Seq<u8>, tried: Seq<u8>)
    requires
        forall|i: int| 0 <= i < name.len() ==> name[i] != 58,
    ensures
        has_password(name.push(58) + password, tried) <==> tried == password,
        !has_password(name, tried),
{
    let c = name.push(58) + password;
    assert forall|j: int| 0 <= j < name.len() implies c[j] != 58 by {
        assert(c[j] == name[j]);
    }
    colon_is_first(c, name.len() as int);
    assert(c.skip(name.len() as int + 1) =~= password);
    colon_is_first(name, name.len() as int);
}

/// Where a password is set, a request without credentials, or with others, is
/// turned away, and one that has it is let in; where none is, all are let in.
pub proof fn the_password_decides(password: Seq<u8>, name: Seq<u8>, tried: Seq<u8>)
    requires
        forall|i: int| 0 <= i < name.len() ==> name[i] != 58,
    ensures
        !admits(Some(password), None),
        admits(Some(password), Some(name.push(58) + tried)) <==> tried == password,
        admits(None, None),
        admits(None, Some(tried)),
{
    names_do_not_matter(name, tried, password);
}

/// The credentials are what follows `Basic ` in a header, and no other scheme
/// has any.
pub proof fn credentials_follow_the_scheme(text: Seq<u8>, header: Seq<u8>)
    ensures
        encoded_credentials(Some(vstd::utf8::encode_utf8("Basic "@) + text)) == Some(text),
        encoded_credentials(Some(header)) is Some ==> header.len() >= 6 && header.take(6)
            == vstd::utf8::encode_utf8("Basic "@),
        encoded_credentials(None) is None,
{
    reveal_strlit("Basic ");
    vstd::utf8::is_ascii_chars_encode_utf8("Basic "@);
    assert(vstd::utf8::encode_utf8("Basic "@) =~= scheme());
    let h = scheme() + text;
    assert(h.take(6) =~= scheme());
    assert(h.skip(6) =~= text);
}

} // verus!
