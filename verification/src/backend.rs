//! The outside crates that compute digests and write them in hexadecimal.
//!
//! Nothing in this file is proved. Each function calls one function of an
//! outside crate and states, as its contract, what that crate's source and
//! documentation say of it. The rest of the library is proved from these
//! contracts and from nothing else about the crates.
//!
//! A hasher is described by two names: the bytes it has taken in, and
//! whether it is of the kind that the library makes. The digest that it
//! gives is a third name, a function of those bytes alone.
use crate::encoding::hex_chars;
use vstd::prelude::*;

verus! {

/// `blake3::Hasher`, the incremental state of a BLAKE3 hash.
#[verifier::external_type_specification]
#[verifier::external_body]
pub struct ExBlake3Hasher(blake3::Hasher);

/// The bytes that a BLAKE3 hasher has taken in since it was made, in order.
pub uninterp spec fn blake3_input(hasher: blake3::Hasher) -> Seq<u8>;

/// Whether a BLAKE3 hasher was made for the regular hash function: without
/// a key, without a context and without an input offset.
pub uninterp spec fn blake3_regular(hasher: blake3::Hasher) -> bool;

/// The 32-byte BLAKE3 hash of `input`.
pub uninterp spec fn blake3_digest(input: Seq<u8>) -> Seq<u8>;

/// Calls `blake3::Hasher::new`, which makes a hasher for the regular hash
/// function that has taken in nothing yet.
#[verifier::external_body]
pub(crate) fn blake3_new() -> (hasher: blake3::Hasher)
    ensures
        blake3_regular(hasher),
        blake3_input(hasher) == Seq::<u8>::empty(),
{
    blake3::Hasher::new()
}

/// Calls `blake3::Hasher::update`, which adds `data` to the end of the
/// hasher's input and leaves its kind as it was. It panics only on a
/// hasher with an input offset, which a regular one has not.
#[verifier::external_body]
pub(crate) fn blake3_update(hasher: &mut blake3::Hasher, data: &[u8])
    requires
        blake3_regular(*old(hasher)),
    ensures
        blake3_regular(*final(hasher)),
        blake3_input(*final(hasher)) == blake3_input(*old(hasher)) + data@,
    no_unwind
{
    hasher.update(data);
}

/// Calls `blake3::Hasher::finalize` and copies the bytes of the `Hash` it
/// returns: for a regular hasher, the 32-byte hash of all its input. The
/// hasher is left as it was.
#[verifier::external_body]
pub(crate) fn blake3_finalize(hasher: &blake3::Hasher) -> (digest: Vec<u8>)
    requires
        blake3_regular(*hasher),
    ensures
        digest@ == blake3_digest(blake3_input(*hasher)),
        digest@.len() == 32,
{
    hasher.finalize().as_bytes().to_vec()
}

/// `md5::Md5`, the state of an MD5 hash.
#[verifier::external_type_specification]
#[verifier::external_body]
pub struct ExMd5(md5::Md5);

/// The bytes that an `md5::Md5` hasher has taken in since it was made, in order.
pub uninterp spec fn md5_input(hasher: md5::Md5) -> Seq<u8>;

/// Whether an `md5::Md5` hasher was made empty and has only been fed since.
pub uninterp spec fn md5_regular(hasher: md5::Md5) -> bool;

/// The 16-byte MD5 hash of `input`, as the `md5` crate computes it.
pub uninterp spec fn md5_digest(input: Seq<u8>) -> Seq<u8>;

/// Calls `Digest::new` on `md5::Md5`, which makes a hasher in its initial
/// state: it has taken in nothing yet.
#[verifier::external_body]
pub(crate) fn md5_new() -> (hasher: md5::Md5)
    ensures
        md5_regular(hasher),
        md5_input(hasher) == Seq::<u8>::empty(),
{
    <md5::Md5 as md5::Digest>::new()
}

/// Calls `Digest::update` on `md5::Md5`, which processes `data` after all
/// earlier input. It does not panic.
#[verifier::external_body]
pub(crate) fn md5_update(hasher: &mut md5::Md5, data: &[u8])
    requires
        md5_regular(*old(hasher)),
    ensures
        md5_regular(*final(hasher)),
        md5_input(*final(hasher)) == md5_input(*old(hasher)) + data@,
    no_unwind
{
    md5::Digest::update(hasher, data);
}

/// Calls `Digest::finalize` on `md5::Md5`, which uses the hasher up, and
/// copies the output array: the 16-byte hash of all the hasher's input.
#[verifier::external_body]
pub(crate) fn md5_finalize(hasher: md5::Md5) -> (digest: Vec<u8>)
    requires
        md5_regular(hasher),
    ensures
        digest@ == md5_digest(md5_input(hasher)),
        digest@.len() == 16,
{
    md5::Digest::finalize(hasher).to_vec()
}

/// `openssl::hash::Hasher`, a message digest context of the OpenSSL library.
#[verifier::external_type_specification]
#[verifier::external_body]
pub struct ExOpensslHasher(openssl::hash::Hasher);

/// `openssl::error::ErrorStack`, the errors that OpenSSL reports for a call.
#[verifier::external_type_specification]
#[verifier::external_body]
pub struct ExOpensslErrorStack(openssl::error::ErrorStack);

/// The bytes that an OpenSSL hasher has been fed since it was made or last
/// finished, in order.
pub uninterp spec fn openssl_input(hasher: openssl::hash::Hasher) -> Seq<u8>;

/// Whether an OpenSSL hasher was made for the MD5 message digest.
pub uninterp spec fn openssl_for_md5(hasher: openssl::hash::Hasher) -> bool;

/// The MD5 hash of `input`, as OpenSSL computes it.
pub uninterp spec fn openssl_md5_digest(input: Seq<u8>) -> Seq<u8>;

/// Calls `openssl::hash::Hasher::new` with `MessageDigest::md5()`. Where
/// OpenSSL makes the hasher, it is one for MD5 that has been fed nothing.
/// Whether it makes one is up to the OpenSSL library on the machine.
#[verifier::external_body]
pub(crate) fn openssl_md5_new() -> (made: Result<openssl::hash::Hasher, openssl::error::ErrorStack>)
    ensures
        made matches Ok(hasher) ==> openssl_for_md5(hasher),
        made matches Ok(hasher) ==> openssl_input(hasher) == Seq::<u8>::empty(),
{
    openssl::hash::Hasher::new(openssl::hash::MessageDigest::md5())
}

/// Calls `openssl::hash::Hasher::update`. The hasher keeps its message
/// digest; where OpenSSL accepts the data, it follows all earlier input.
/// After a refusal nothing is known of the input. It does not panic.
#[verifier::external_body]
pub(crate) fn openssl_update(hasher: &mut openssl::hash::Hasher, data: &[u8]) -> (fed: Result<
    (),
    openssl::error::ErrorStack,
>)
    ensures
        openssl_for_md5(*final(hasher)) == openssl_for_md5(*old(hasher)),
        fed is Ok ==> openssl_input(*final(hasher)) == openssl_input(*old(hasher)) + data@,
    no_unwind
{
    hasher.update(data)
}

/// Calls `openssl::hash::Hasher::finish` and copies the bytes it returns.
/// For an MD5 hasher they are the hash of all its input. The crate hands
/// them out of a buffer of 64 bytes, so they are no more than that.
#[verifier::external_body]
pub(crate) fn openssl_finish(hasher: openssl::hash::Hasher) -> (done: Result<
    Vec<u8>,
    openssl::error::ErrorStack,
>)
    requires
        openssl_for_md5(hasher),
    ensures
        done matches Ok(digest) ==> digest@ == openssl_md5_digest(openssl_input(hasher)),
        done matches Ok(digest) ==> digest@.len() <= 64,
{
    let mut hasher = hasher;
    match hasher.finish() {
        Ok(bytes) => Ok(bytes.to_vec()),
        Err(stack) => Err(stack),
    }
}

/// Calls `hex::encode`, which writes each byte as two lowercase hexadecimal
/// digits, high half first. The bound keeps the length of the text within
/// `usize`, which the crate computes as twice the number of bytes.
#[verifier::external_body]
pub(crate) fn hex_encode(bytes: &[u8]) -> (text: String)
    requires
        2 * bytes@.len() <= usize::MAX,
    ensures
        text@ == hex_chars(bytes@),
{
    hex::encode(bytes)
}

} // verus!
