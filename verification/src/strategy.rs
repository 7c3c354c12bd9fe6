//! The digest strategies and how a speed level or a listing's tag selects one.
use crate::backend::{blake3_digest, openssl_md5_digest};
use crate::encoding::hex_chars;
use crate::hashing::{
    fed, lemma_fed_is_concatenation, Blake3Stream, DigestFault, OpensslMd5Stream,
};
use crate::sampled::{sampled_digest, sampled_hex};
use vstd::prelude::*;

verus! {

/// How the digest of a file is computed.
#[derive(Clone, Copy, Debug, PartialEq, Eq, Structural)]
pub enum Strategy {
    /// The MD5 digest of the whole file, folded chunk by chunk while
    /// another thread reads ahead.
    PipelinedExact,
    /// The BLAKE3 digest of the whole file in one pass.
    SinglePassExact,
    /// The BLAKE3 digest of blocks sampled from the file at a speed level.
    Sampled { speed: usize },
}

/// The strategy that a configured speed level selects: 0 the pipelined
/// exact one, 1 the single-pass exact one, any other level sampling at
/// that level.
pub open spec fn strategy_of_speed(speed: usize) -> Strategy {
    if speed == 0 {
        Strategy::PipelinedExact
    } else if speed == 1 {
        Strategy::SinglePassExact
    } else {
        Strategy::Sampled { speed }
    }
}

/// The strategy that the tag of a listing's line selects: without a speed
/// level the pipelined exact one, with level 1 the single-pass exact one,
/// with any other level sampling at that level.
pub open spec fn strategy_of_tag(speed_tag: Option<usize>) -> Strategy {
    match speed_tag {
        None => Strategy::PipelinedExact,
        Some(speed) => if speed == 1 {
            Strategy::SinglePassExact
        } else {
            Strategy::Sampled { speed }
        },
    }
}

/// The speed level written behind a digest made at `speed`: none for the
/// exact levels 0 and 1, the level itself for the sampling levels.
pub open spec fn tag_of_speed(speed: usize) -> Option<usize> {
    if speed <= 1 {
        None
    } else {
        Some(speed)
    }
}

/// The digest of `content` under `strategy`, in hexadecimal.
pub open spec fn digest_hex(strategy: Strategy, content: Seq<u8>) -> Seq<char> {
    match strategy {
        Strategy::PipelinedExact => hex_chars(openssl_md5_digest(content)),
        Strategy::SinglePassExact => hex_chars(blake3_digest(content)),
        Strategy::Sampled { speed } => sampled_hex(content, speed),
    }
}

impl Strategy {
    /// The strategy for generating digests at a configured speed level.
    pub fn for_speed(speed: usize) -> (strategy: Strategy)
        ensures
            strategy == strategy_of_speed(speed),
    {
        if speed == 0 {
            Strategy::PipelinedExact
        } else if speed == 1 {
            Strategy::SinglePassExact
        } else {
            Strategy::Sampled { speed }
        }
    }

    /// The strategy for recomputing the digest of a listing's line.
    pub fn for_tag(speed_tag: Option<usize>) -> (strategy: Strategy)
        ensures
            strategy == strategy_of_tag(speed_tag),
    {
        match speed_tag {
            None => Strategy::PipelinedExact,
            Some(speed) => if speed == 1 {
                Strategy::SinglePassExact
            } else {
                Strategy::Sampled { speed }
            },
        }
    }

    /// The digest of content held in memory, in hexadecimal. Only the
    /// pipelined exact strategy can fail, where OpenSSL refuses to work.
    pub fn digest_bytes(&self, content: &[u8]) -> (done: Result<String, DigestFault>)
        ensures
            done matches Ok(text) ==> text@ == digest_hex(*self, content@),
            *self != Strategy::PipelinedExact ==> done is Ok,
    {
        match self {
            Strategy::PipelinedExact => {
                let mut stream = match OpensslMd5Stream::new() {
                    Ok(stream) => stream,
                    Err(fault) => {
                        return Err(fault);
                    },
                };
                match stream.update(content) {
                    Ok(_) => {},
                    Err(fault) => {
                        return Err(fault);
                    },
                }
                assert(stream.absorbed() =~= content@);
                stream.finish()
            },
            Strategy::SinglePassExact => {
                let mut stream = Blake3Stream::new();
                stream.update(content);
                assert(stream.absorbed() =~= content@);
                Ok(stream.hex())
            },
            Strategy::Sampled { speed } => Ok(sampled_digest(content, *speed)),
        }
    }
}

/// The speed level to write behind a digest made at `speed`.
pub fn speed_tag(speed: usize) -> (tag: Option<usize>)
    ensures
        tag == tag_of_speed(speed),
{
    if speed <= 1 {
        None
    } else {
        Some(speed)
    }
}

/// A line read back selects the strategy that its digest was made with,
/// at every speed level but 1, whose digests are written without a level
/// and read back as digests of level 0.
pub proof fn lemma_tag_selects_strategy(speed: usize)
    requires
        speed != 1,
    ensures
        strategy_of_tag(tag_of_speed(speed)) == strategy_of_speed(speed),
{
}

/// The same bytes have the same digest under a strategy, however they are
/// cut into chunks on their way into the stream.
pub proof fn lemma_digest_ignores_chunking(
    strategy: Strategy,
    first: Seq<Seq<u8>>,
    second: Seq<Seq<u8>>,
)
    requires
        first.flatten() == second.flatten(),
    ensures
        fed(Seq::empty(), first) == first.flatten(),
        digest_hex(strategy, fed(Seq::empty(), first)) == digest_hex(
            strategy,
            fed(Seq::empty(), second),
        ),
{
    lemma_fed_is_concatenation(Seq::empty(), first);
    lemma_fed_is_concatenation(Seq::empty(), second);
    assert(fed(Seq::empty(), first) =~= first.flatten());
    assert(fed(Seq::empty(), second) =~= second.flatten());
}

} // verus!
