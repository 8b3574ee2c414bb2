//! Hashes of syntax, used to name the functions that the compiler generates.
use vstd::prelude::*;
use std::hash::BuildHasher;
use crate::text::{hex_text, push_hex};

verus! {

/// The hash that std's `DefaultHasher` gives a string slice.
pub uninterp spec fn default_hash(text: Seq<char>) -> u64;

/// Hashes `text` with std's `DefaultHasher` (`BuildHasher::hash_one` on
/// `BuildHasherDefault<DefaultHasher>`, which starts every hasher from the same fixed keys).
///
/// The contract names the result: the same text always hashes to the same number.
#[verifier::external_body]
pub fn get_hash(text: &str) -> (r: u64)
    ensures
        r == default_hash(text@),
{
    std::hash::BuildHasherDefault::<std::collections::hash_map::DefaultHasher>::default().hash_one(text)
}

/// The hash of `text` in lower-case hexadecimal.
pub fn hash_hex(text: &str) -> (r: String)
    ensures
        r@ == hex_text(default_hash(text@) as nat),
{
    let h = get_hash(text);
    let mut out = String::new();
    push_hex(&mut out, h);
    out
}

} // verus!
