//! Authorization and hierarchical-content core of a block-based knowledge tool.
//!
//! - [`fractional_index`]: order keys of sibling blocks, with a midpoint
//!   between any two.
//! - [`nutty_id`]: 128-bit identifiers and their seven-symbol short form.
//! - [`nutty_tag`]: wikilink tags that embed short identifiers in text.
//! - [`content`]: the block hierarchy and its reference links.
//! - [`access`]: the permission catalog and the tiered resolver.
//! - [`service`]: access checks that cascade up the hierarchy, block
//!   contexts, and the save pipeline that keeps links in step with text.
//! - [`navigator`], [`session`]: accounts and login sessions.
//! - [`response`]: the envelope of API responses.
use vstd::prelude::*;

pub mod fractional_index;
pub mod nutty_id;
pub mod content;
pub mod access;
pub mod nutty_tag;
pub mod service;
pub mod response;
pub mod session;
pub mod navigator;

verus! {

/// Relies on `String: FromIterator<char>`: the string holds the characters in order.
#[verifier::external_body]
pub(crate) fn string_from_chars(chars: &Vec<char>) -> (r: String)
    ensures
        r@ == chars@,
{
    chars.iter().collect()
}

/// Appends the characters of `s`.
pub(crate) fn push_chars(chars: &mut Vec<char>, s: &str)
    ensures
        final(chars)@ == old(chars)@ + s@,
{
    let n = s.unicode_len();
    let ghost start = chars@;
    let mut i: usize = 0;
    while i < n
        invariant
            n == s@.len(),
            i <= n,
            chars@ == start + s@.take(i as int),
        decreases n - i,
    {
        chars.push(s.get_char(i));
        assert(s@.take(i + 1) =~= s@.take(i as int).push(s@[i as int]));
        i = i + 1;
    }
    assert(s@.take(n as int) =~= s@);
}

} // verus!
