use fastmd5::encoding::{hex_text, u64_be_bytes};
use fastmd5::hashing::{Blake3Stream, Md5Stream, OpensslMd5Stream};
use fastmd5::strategy::{speed_tag, Strategy};

const MD5_EMPTY: &str = "d41d8cd98f00b204e9800998ecf8427e";
const MD5_HELLO: &str = "5d41402abc4b2a76b9719d911017c592";
const MD5_HELLO_WORLD: &str = "5eb63bbbe01eeed093cb22bb8f5acdc3";
const BLAKE3_EMPTY: &str = "af1349b9f5f9a1a6a0404dea36dcc9499bcb25c9adc112b7cc9a93cae41f3262";
const BLAKE3_HELLO: &str = "ea8f163db38682925e4491c5e58d4bb3506ef8c14eb78a86e908c5624a67200f";

#[test]
fn big_endian_bytes_of_a_length() {
    assert_eq!(u64_be_bytes(0), vec![0, 0, 0, 0, 0, 0, 0, 0]);
    assert_eq!(u64_be_bytes(1), vec![0, 0, 0, 0, 0, 0, 0, 1]);
    assert_eq!(u64_be_bytes(0x0102_0304_0506_0708), vec![1, 2, 3, 4, 5, 6, 7, 8]);
    assert_eq!(u64_be_bytes(u64::MAX), vec![255; 8]);
    for n in [0u64, 255, 256, 65_535, 3 << 20, u64::MAX - 1] {
        assert_eq!(u64_be_bytes(n), n.to_be_bytes().to_vec());
    }
}

#[test]
fn hexadecimal_text_of_bytes() {
    assert_eq!(hex_text(&[]), "");
    assert_eq!(hex_text(&[0x00]), "00");
    assert_eq!(hex_text(&[0x00, 0x0f, 0xf0, 0xff, 0x1a, 0xa1]), "000ff0ff1aa1");
    assert_eq!(hex_text(&[1, 2, 3, 15, 16]), "0102030f10");
    assert_eq!(hex_text(b"Hello world!"), "48656c6c6f20776f726c6421");
    let all: Vec<u8> = (0..=255).collect();
    let text = hex_text(&all);
    assert_eq!(text.len(), 512);
    for (i, pair) in text.as_bytes().chunks(2).enumerate() {
        assert_eq!(pair, format!("{:02x}", i).as_bytes());
    }
}

#[test]
fn md5_stream_gives_the_published_digest_of_hello() {
    let mut stream = Md5Stream::new();
    stream.update(b"hello");
    assert_eq!(stream.finish(), MD5_HELLO);
}

#[test]
fn md5_stream_of_nothing() {
    assert_eq!(Md5Stream::new().finish(), MD5_EMPTY);
}

#[test]
fn md5_stream_folds_chunks_in_order() {
    let mut stream = Md5Stream::new();
    stream.update(b"hello");
    stream.update(b"");
    stream.update(b" wor");
    stream.update(b"ld");
    assert_eq!(stream.finish(), MD5_HELLO_WORLD);
    let mut swapped = Md5Stream::new();
    swapped.update(b" world");
    swapped.update(b"hello");
    assert_ne!(swapped.finish(), MD5_HELLO_WORLD);
}

#[test]
fn openssl_stream_gives_the_published_digest_of_hello() {
    let mut stream = OpensslMd5Stream::new().unwrap();
    stream.update(b"hello").unwrap();
    assert_eq!(stream.finish().unwrap(), MD5_HELLO);
}

#[test]
fn openssl_stream_of_nothing() {
    assert_eq!(OpensslMd5Stream::new().unwrap().finish().unwrap(), MD5_EMPTY);
}

#[test]
fn openssl_stream_folds_chunks_in_order() {
    let mut stream = OpensslMd5Stream::new().unwrap();
    stream.update(b"hel").unwrap();
    stream.update(b"lo world").unwrap();
    assert_eq!(stream.finish().unwrap(), MD5_HELLO_WORLD);
}

#[test]
fn both_md5_streams_agree() {
    let data: Vec<u8> = (0..100_000u32).map(|i| (i * 31 % 251) as u8).collect();
    let mut plain = Md5Stream::new();
    let mut other = OpensslMd5Stream::new().unwrap();
    for chunk in data.chunks(4097) {
        plain.update(chunk);
        other.update(chunk).unwrap();
    }
    assert_eq!(plain.finish(), other.finish().unwrap());
}

#[test]
fn blake3_stream_gives_the_published_digest_of_hello() {
    let mut stream = Blake3Stream::new();
    stream.update(b"hello");
    assert_eq!(stream.hex(), BLAKE3_HELLO);
    assert_eq!(stream.digest(), blake3::hash(b"hello").as_bytes().to_vec());
}

#[test]
fn blake3_stream_of_nothing() {
    let stream = Blake3Stream::new();
    assert_eq!(stream.hex(), BLAKE3_EMPTY);
    assert_eq!(stream.digest().len(), 32);
}

#[test]
fn blake3_stream_folds_chunks_in_order() {
    let data: Vec<u8> = (0..300_000u32).map(|i| (i % 253) as u8).collect();
    let mut stream = Blake3Stream::new();
    for chunk in data.chunks(1000) {
        stream.update(chunk);
    }
    assert_eq!(stream.hex(), blake3::hash(&data).to_hex().to_string());
}

#[test]
fn blake3_stream_can_be_read_and_fed_again() {
    let mut stream = Blake3Stream::new();
    stream.update(b"hel");
    let early = stream.hex();
    assert_eq!(early, blake3::hash(b"hel").to_hex().to_string());
    stream.update(b"lo");
    assert_eq!(stream.hex(), BLAKE3_HELLO);
}

#[test]
fn hexadecimal_text_is_lowercase_with_two_digits_per_byte() {
    let text = Md5Stream::new().finish();
    assert_eq!(text.len(), 32);
    assert!(text.chars().all(|c| c.is_ascii_digit() || ('a'..='f').contains(&c)));
    let long = Blake3Stream::new().hex();
    assert_eq!(long.len(), 64);
    assert!(long.chars().all(|c| c.is_ascii_digit() || ('a'..='f').contains(&c)));
}

#[test]
fn speed_selects_the_strategy() {
    assert_eq!(Strategy::for_speed(0), Strategy::PipelinedExact);
    assert_eq!(Strategy::for_speed(1), Strategy::SinglePassExact);
    for speed in 2..10 {
        assert_eq!(Strategy::for_speed(speed), Strategy::Sampled { speed });
    }
    assert_eq!(Strategy::for_speed(12), Strategy::Sampled { speed: 12 });
}

#[test]
fn tag_selects_the_strategy() {
    assert_eq!(Strategy::for_tag(None), Strategy::PipelinedExact);
    assert_eq!(Strategy::for_tag(Some(1)), Strategy::SinglePassExact);
    assert_eq!(Strategy::for_tag(Some(0)), Strategy::Sampled { speed: 0 });
    for speed in 2..10 {
        assert_eq!(Strategy::for_tag(Some(speed)), Strategy::Sampled { speed });
    }
    assert_eq!(Strategy::for_tag(Some(10)), Strategy::Sampled { speed: 10 });
}

#[test]
fn exact_levels_are_written_without_a_speed() {
    assert_eq!(speed_tag(0), None);
    assert_eq!(speed_tag(1), None);
    for speed in 2..10 {
        assert_eq!(speed_tag(speed), Some(speed));
    }
}

#[test]
fn exact_digests_are_deterministic_and_match_the_published_values() {
    for _ in 0..2 {
        assert_eq!(Strategy::PipelinedExact.digest_bytes(b"hello").unwrap(), MD5_HELLO);
        assert_eq!(Strategy::SinglePassExact.digest_bytes(b"hello").unwrap(), BLAKE3_HELLO);
    }
    assert_eq!(Strategy::for_speed(0).digest_bytes(b"").unwrap(), MD5_EMPTY);
    assert_eq!(Strategy::for_speed(1).digest_bytes(b"").unwrap(), BLAKE3_EMPTY);
}

#[test]
fn sampled_strategy_digests_through_the_sampler() {
    let data = vec![7u8; 5000];
    let text = Strategy::Sampled { speed: 4 }.digest_bytes(&data).unwrap();
    assert_eq!(text, fastmd5::sampled::sampled_digest(&data, 4));
}
