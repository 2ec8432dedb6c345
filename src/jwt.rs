use hmac::{Hmac, Mac};
use sha2::Sha256;
use vstd::prelude::*;
use vstd::utf8::encode_utf8;

verus! {

/// The HMAC-SHA256 of `message` under `key`.
pub uninterp spec fn hmac_sha256(key: Seq<u8>, message: Seq<u8>) -> Seq<u8>;

/// The bytes that the unpadded base64url text `text` stands for, or `None` where it
/// is no such text.
pub uninterp spec fn base64url_decoded(text: Seq<u8>) -> Option<Seq<u8>>;

/// Relies on hmac's `Hmac<Sha256>`: `new_from_slice` accepts a key of any length
/// and never fails (a key longer than a block is hashed first), and `update` then
/// `finalize` give the MAC of the message.
#[verifier::external_body]
fn mac_of(key: &[u8], message: &[u8]) -> (r: Option<Vec<u8>>)
    ensures
        r is Some,
        r matches Some(m) ==> m@ == hmac_sha256(key@, message@),
{
    match <Hmac<Sha256> as Mac>::new_from_slice(key) {
        Ok(mut mac) => {
            mac.update(message);
            Some(mac.finalize().into_bytes().to_vec())
        },
        Err(_) => None,
    }
}

/// Relies on base64_url::decode: it decodes the URL-safe alphabet without padding,
/// and fails on any other text.
#[verifier::external_body]
fn decode_base64url(text: &[u8]) -> (r: Option<Vec<u8>>)
    ensures
        r is Some <==> base64url_decoded(text@) is Some,
        r matches Some(v) ==> base64url_decoded(text@) == Some(v@),
{
    base64_url::decode(text).ok()
}

/// The byte that separates the segments of a token: an ASCII `.`.
pub const SEPARATOR: u8 = 46;

/// The position of the last `x` in `b`, if any.
pub open spec fn last_index_of(b: Seq<u8>, x: u8) -> Option<nat>
    decreases b.len(),
{
    if b.len() == 0 {
        None
    } else if b.last() == x {
        Some((b.len() - 1) as nat)
    } else {
        last_index_of(b.drop_last(), x)
    }
}

/// The UTF-8 bytes of a token.
pub open spec fn token_bytes(token: Seq<char>) -> Seq<u8> {
    encode_utf8(token)
}

/// The signed segment and the signature segment of a token: what comes before and
/// after its last separator.
pub open spec fn token_parts(b: Seq<u8>) -> Option<(Seq<u8>, Seq<u8>)> {
    match last_index_of(b, SEPARATOR) {
        Some(i) => Some((b.subrange(0, i as int), b.subrange(i as int + 1, b.len() as int))),
        None => None,
    }
}

/// Whether a token splits into a signed segment and a signature segment whose text
/// decodes.
pub open spec fn well_formed(token: Seq<char>) -> bool {
    match token_parts(token_bytes(token)) {
        Some(p) => base64url_decoded(p.1) is Some,
        None => false,
    }
}

#[derive(Debug, Clone, Copy, PartialEq, Eq, Structural)]
pub enum JwtError {
    InvalidFormat,
    InvalidSignature,
}

impl JwtError {
    /// The message that reports this error.
    pub fn message(&self) -> (r: String)
        ensures
            *self == JwtError::InvalidFormat ==> r@ == "Invalid jwt format"@,
            *self == JwtError::InvalidSignature ==> r@ == "Invalid signature"@,
    {
        match *self {
            JwtError::InvalidFormat => String::from_str("Invalid jwt format"),
            JwtError::InvalidSignature => String::from_str("Invalid signature"),
        }
    }
}

/// A token taken apart: its signed segment, the text of its signature, and the
/// signature's bytes.
pub struct Jwt {
    pub b64_signed_part: Vec<u8>,
    pub b64_signature: Vec<u8>,
    pub signature: Vec<u8>,
}

/// The bytes of `b` from `from` up to `to`.
fn copy_range(b: &[u8], from: usize, to: usize) -> (r: Vec<u8>)
    requires
        from <= to <= b@.len(),
    ensures
        r@ == b@.subrange(from as int, to as int),
{
    let mut out: Vec<u8> = Vec::new();
    let mut i: usize = from;
    while i < to
        invariant
            from <= i <= to <= b@.len(),
            out@ == b@.subrange(from as int, i as int),
        decreases to - i,
    {
        out.push(b[i]);
        i = i + 1;
        assert(out@ =~= b@.subrange(from as int, i as int));
    }
    out
}

/// Whether `a` and `b` hold the same bytes.
pub fn bytes_equal(a: &[u8], b: &[u8]) -> (r: bool)
    ensures
        r == (a@ == b@),
{
    if a.len() != b.len() {
        return false;
    }
    let mut i: usize = 0;
    while i < a.len()
        invariant
            a@.len() == b@.len(),
            i <= a@.len(),
            a@.subrange(0, i as int) == b@.subrange(0, i as int),
        decreases a.len() - i,
    {
        if a[i] != b[i] {
            assert(a@[i as int] != b@[i as int]);
            return false;
        }
        i = i + 1;
        assert(a@.subrange(0, i as int) =~= a@.subrange(0, (i - 1) as int).push(a@[i - 1]));
        assert(b@.subrange(0, i as int) =~= b@.subrange(0, (i - 1) as int).push(b@[i - 1]));
    }
    assert(a@ =~= a@.subrange(0, a@.len() as int));
    assert(b@ =~= b@.subrange(0, b@.len() as int));
    true
}

/// The position of the last `x` in `b`, if any.
fn find_last(b: &[u8], x: u8) -> (r: Option<usize>)
    ensures
        match r {
            Some(i) => i < b@.len() && last_index_of(b@, x) == Some(i as nat),
            None => last_index_of(b@, x) is None,
        },
{
    let mut i: usize = b.len();
    assert(b@.subrange(0, i as int) =~= b@);
    while i > 0
        invariant
            i <= b@.len(),
            last_index_of(b@, x) == last_index_of(b@.subrange(0, i as int), x),
        decreases i,
    {
        let ghost prefix = b@.subrange(0, i as int);
        if b[i - 1] == x {
            return Some(i - 1);
        }
        i = i - 1;
        assert(prefix.drop_last() =~= b@.subrange(0, i as int));
    }
    None
}

impl Jwt {
    pub fn new() -> (r: Self)
        ensures
            r.b64_signed_part@.len() == 0,
            r.b64_signature@.len() == 0,
            r.signature@.len() == 0,
    {
        Jwt { b64_signed_part: Vec::new(), b64_signature: Vec::new(), signature: Vec::new() }
    }

    /// Takes `jwt_str` apart at its last separator and decodes its signature.
    pub fn split(self, jwt_str: String) -> (r: Result<Self, JwtError>)
        ensures
            r is Ok <==> well_formed(jwt_str@),
            r matches Err(e) ==> e == JwtError::InvalidFormat,
            r matches Ok(j) ==> {
                let p = token_parts(token_bytes(jwt_str@))->0;
                &&& j.b64_signed_part@ == p.0
                &&& j.b64_signature@ == p.1
                &&& base64url_decoded(p.1) == Some(j.signature@)
            },
    {
        let mut s = self;
        let bytes = jwt_str.as_str().as_bytes();
        let len = bytes.len();
        match find_last(bytes, SEPARATOR) {
            None => Err(JwtError::InvalidFormat),
            Some(i) => {
                s.b64_signed_part = copy_range(bytes, 0, i);
                s.b64_signature = copy_range(bytes, i + 1, len);
                match decode_base64url(s.b64_signature.as_slice()) {
                    Some(decoded) => {
                        s.signature = decoded;
                        Ok(s)
                    },
                    None => Err(JwtError::InvalidFormat),
                }
            },
        }
    }

    /// Whether `key` signs the signed segment with this token's signature.
    pub fn check(&self, key: Vec<u8>) -> (r: Result<(), JwtError>)
        ensures
            r is Ok <==> hmac_sha256(key@, self.b64_signed_part@) == self.signature@,
            r matches Err(e) ==> e == JwtError::InvalidSignature,
    {
        match mac_of(key.as_slice(), self.b64_signed_part.as_slice()) {
            Some(mac) => {
                if bytes_equal(mac.as_slice(), self.signature.as_slice()) {
                    Ok(())
                } else {
                    Err(JwtError::InvalidSignature)
                }
            },
            None => Err(JwtError::InvalidSignature),
        }
    }
}

} // verus!
