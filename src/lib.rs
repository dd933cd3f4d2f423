//! Poly1305 one-time authenticator (RFC 8439): 16-byte tags from a 32-byte
//! one-time key, and tag checks whose comparison runs in constant time.
use vstd::prelude::*;

pub mod model;
pub mod field;
pub mod codec;
pub mod compare;
pub mod engine;
pub mod laws;

use crate::engine::{compute_tag, tags_equal};
use crate::model::poly1305_tag;

verus! {

/// Length of a one-time key in bytes.
pub const KEY_SIZE: usize = 32;

/// Length of a tag in bytes.
pub const TAG_SIZE: usize = 16;

/// Why an input was rejected before any cryptographic work.
#[derive(Clone, Copy, Debug, PartialEq, Eq, Structural)]
pub enum Poly1305Error {
    /// The key is not exactly 32 bytes long.
    InvalidKeyLength,
    /// The tag is not exactly 16 bytes long.
    InvalidTagLength,
}

/// What `authenticate` returns for a key and a message.
pub open spec fn auth_result(key: Seq<u8>, message: Seq<u8>) -> Result<Seq<u8>, Poly1305Error> {
    if key.len() != KEY_SIZE {
        Err(Poly1305Error::InvalidKeyLength)
    } else {
        Ok(poly1305_tag(key, message))
    }
}

/// What `verify` returns: a wrong tag length is reported whatever the key,
/// then a wrong key length; otherwise whether the tag is the message's tag.
pub open spec fn verify_result(key: Seq<u8>, tag: Seq<u8>, message: Seq<u8>) -> Result<
    bool,
    Poly1305Error,
> {
    if tag.len() != TAG_SIZE {
        Err(Poly1305Error::InvalidTagLength)
    } else if key.len() != KEY_SIZE {
        Err(Poly1305Error::InvalidKeyLength)
    } else {
        Ok(tag == poly1305_tag(key, message))
    }
}

/// The 16-byte tag of `message` under the one-time `key`.
pub fn authenticate(key: &[u8], message: &[u8]) -> (r: Result<Vec<u8>, Poly1305Error>)
    ensures
        match r {
            Ok(t) => auth_result(key@, message@) == Ok::<Seq<u8>, Poly1305Error>(t@),
            Err(e) => auth_result(key@, message@) == Err::<Seq<u8>, Poly1305Error>(e),
        },
{
    if key.len() != KEY_SIZE {
        return Err(Poly1305Error::InvalidKeyLength);
    }
    Ok(compute_tag(key, message))
}

/// Whether `tag` is the tag of `message` under `key`; the tags are compared
/// in constant time.
pub fn verify(key: &[u8], tag: &[u8], message: &[u8]) -> (r: Result<bool, Poly1305Error>)
    ensures
        r == verify_result(key@, tag@, message@),
{
    if tag.len() != TAG_SIZE {
        return Err(Poly1305Error::InvalidTagLength);
    }
    if key.len() != KEY_SIZE {
        return Err(Poly1305Error::InvalidKeyLength);
    }
    let expected = compute_tag(key, message);
    Ok(tags_equal(expected.as_slice(), tag))
}

} // verus!
