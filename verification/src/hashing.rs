//! Running digests: streams that fold the chunks of a file, in order, into
//! one digest.
use crate::backend::{
    blake3_digest, blake3_finalize, blake3_input, blake3_new, blake3_regular, blake3_update,
    md5_digest, md5_finalize, md5_input, md5_new, md5_regular, md5_update,
    openssl_finish, openssl_for_md5, openssl_input, openssl_md5_digest, openssl_md5_new,
    openssl_update,
};
use crate::encoding::{hex_chars, hex_text};
use vstd::prelude::*;

verus! {

/// What a stream that held `start` holds after `chunks` were handed to it
/// one by one.
pub open spec fn fed(start: Seq<u8>, chunks: Seq<Seq<u8>>) -> Seq<u8>
    decreases chunks.len(),
{
    if chunks.len() == 0 {
        start
    } else {
        fed(start, chunks.drop_last()) + chunks.last()
    }
}

/// Handing chunks to a stream one by one comes to handing it their
/// concatenation: where the cuts between the chunks fall does not matter.
pub proof fn lemma_fed_is_concatenation(start: Seq<u8>, chunks: Seq<Seq<u8>>)
    ensures
        fed(start, chunks) == start + chunks.flatten(),
    decreases chunks.len(),
{
    chunks.lemma_flatten_and_flatten_alt_are_equivalent();
    if chunks.len() == 0 {
        assert(fed(start, chunks) =~= start + chunks.flatten());
    } else {
        let earlier = chunks.drop_last();
        lemma_fed_is_concatenation(start, earlier);
        earlier.lemma_flatten_and_flatten_alt_are_equivalent();
        assert(fed(start, chunks) =~= start + chunks.flatten());
    }
}

/// A running BLAKE3 digest over the bytes handed to it so far.
pub struct Blake3Stream {
    hasher: blake3::Hasher,
}

impl Blake3Stream {
    #[verifier::type_invariant]
    spec fn regular(self) -> bool {
        blake3_regular(self.hasher)
    }

    /// The bytes taken in so far.
    pub closed spec fn absorbed(self) -> Seq<u8> {
        blake3_input(self.hasher)
    }

    /// A stream that has taken in nothing.
    pub fn new() -> (stream: Self)
        ensures
            stream.absorbed() == Seq::<u8>::empty(),
    {
        Blake3Stream { hasher: blake3_new() }
    }

    /// Takes in `chunk` after everything taken in before.
    pub fn update(&mut self, chunk: &[u8])
        ensures
            final(self).absorbed() == old(self).absorbed() + chunk@,
    {
        proof {
            use_type_invariant(&*self);
        }
        blake3_update(&mut self.hasher, chunk);
    }

    /// The 32-byte digest of everything taken in so far.
    pub fn digest(&self) -> (digest: Vec<u8>)
        ensures
            digest@ == blake3_digest(self.absorbed()),
            digest@.len() == 32,
    {
        proof {
            use_type_invariant(self);
        }
        blake3_finalize(&self.hasher)
    }

    /// The digest of everything taken in so far, as 64 hexadecimal digits.
    pub fn hex(&self) -> (text: String)
        ensures
            text@ == hex_chars(blake3_digest(self.absorbed())),
    {
        let digest = self.digest();
        hex_text(digest.as_slice())
    }
}

/// A running MD5 digest over the bytes handed to it so far.
pub struct Md5Stream {
    hasher: md5::Md5,
}

impl Md5Stream {
    #[verifier::type_invariant]
    spec fn regular(self) -> bool {
        md5_regular(self.hasher)
    }

    /// The bytes taken in so far.
    pub closed spec fn absorbed(self) -> Seq<u8> {
        md5_input(self.hasher)
    }

    /// A stream that has taken in nothing.
    pub fn new() -> (stream: Self)
        ensures
            stream.absorbed() == Seq::<u8>::empty(),
    {
        Md5Stream { hasher: md5_new() }
    }

    /// Takes in `chunk` after everything taken in before.
    pub fn update(&mut self, chunk: &[u8])
        ensures
            final(self).absorbed() == old(self).absorbed() + chunk@,
    {
        proof {
            use_type_invariant(&*self);
        }
        md5_update(&mut self.hasher, chunk);
    }

    /// Ends the stream: the digest of everything taken in, as 32
    /// hexadecimal digits.
    pub fn finish(self) -> (text: String)
        ensures
            text@ == hex_chars(md5_digest(self.absorbed())),
    {
        proof {
            use_type_invariant(&self);
        }
        let digest = md5_finalize(self.hasher);
        hex_text(digest.as_slice())
    }
}

/// The step at which the OpenSSL library refused to go on.
#[derive(Clone, Copy, Debug, PartialEq, Eq, Structural)]
pub enum DigestFault {
    /// No hasher could be made.
    Start,
    /// A chunk was not accepted.
    Update,
    /// The digest could not be taken out.
    Finish,
}

/// A running MD5 digest computed by the OpenSSL library.
pub struct OpensslMd5Stream {
    hasher: openssl::hash::Hasher,
}

impl OpensslMd5Stream {
    #[verifier::type_invariant]
    spec fn for_md5(self) -> bool {
        openssl_for_md5(self.hasher)
    }

    /// The bytes taken in so far.
    pub closed spec fn absorbed(self) -> Seq<u8> {
        openssl_input(self.hasher)
    }

    /// A stream that has taken in nothing, unless OpenSSL cannot make one.
    pub fn new() -> (made: Result<Self, DigestFault>)
        ensures
            made matches Ok(stream) ==> stream.absorbed() == Seq::<u8>::empty(),
            made matches Err(fault) ==> fault == DigestFault::Start,
    {
        match openssl_md5_new() {
            Ok(hasher) => Ok(OpensslMd5Stream { hasher }),
            Err(_) => Err(DigestFault::Start),
        }
    }

    /// Takes in `chunk` after everything taken in before, unless OpenSSL
    /// refuses it; after a refusal the stream's input is no longer known.
    pub fn update(&mut self, chunk: &[u8]) -> (fed: Result<(), DigestFault>)
        ensures
            fed is Ok ==> final(self).absorbed() == old(self).absorbed() + chunk@,
            fed matches Err(fault) ==> fault == DigestFault::Update,
    {
        proof {
            use_type_invariant(&*self);
        }
        match openssl_update(&mut self.hasher, chunk) {
            Ok(_) => Ok(()),
            Err(_) => Err(DigestFault::Update),
        }
    }

    /// Ends the stream: the digest of everything taken in, in hexadecimal
    /// digits, unless OpenSSL cannot produce it.
    pub fn finish(self) -> (done: Result<String, DigestFault>)
        ensures
            done matches Ok(text) ==> text@ == hex_chars(openssl_md5_digest(self.absorbed())),
            done matches Err(fault) ==> fault == DigestFault::Finish,
    {
        proof {
            use_type_invariant(&self);
        }
        match openssl_finish(self.hasher) {
            Ok(digest) => Ok(hex_text(digest.as_slice())),
            Err(_) => Err(DigestFault::Finish),
        }
    }
}

} // verus!
