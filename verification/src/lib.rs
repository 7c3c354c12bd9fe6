//! Content fingerprints for files, at a selectable trade-off between
//! exactness and speed.
//!
//! A speed level of 0 gives the MD5 digest of the whole file, level 1 its
//! BLAKE3 digest, and levels 2 to 9 a BLAKE3 digest of blocks sampled from
//! the file, the fewer the higher the level. Digests are written to a
//! listing, one line per file, and a listing can be checked against the
//! files it names.
//!
//! This library holds the decisions and the arithmetic: where the sampled
//! blocks lie ([`plan`]), how chunks and block digests are folded into a
//! digest ([`hashing`], [`sampled`]), which strategy a speed level or a
//! line selects ([`strategy`]), how a line is written and read
//! ([`listing`]), how a recomputed digest is judged and reported
//! ([`verification`]), and what the stages of a run keep account of
//! ([`pipeline`]). Reading files, walking directories and running threads
//! are left to the program that calls it.
pub mod backend;
pub mod encoding;
pub mod hashing;
pub mod listing;
pub mod option;
pub mod pipeline;
pub mod plan;
pub mod sampled;
pub mod strategy;
pub mod verification;
