//! Locating a URL at the start of a character window, driven by `urlocator`.
use vstd::prelude::*;
use urlocator::{UrlLocation, UrlLocator};

use crate::chars::{byte_len, count_char, len_utf8, lemma_byte_len_push, lemma_count_char_push};

verus! {

#[verifier::external_type_specification]
#[verifier::external_body]
pub struct ExUrlLocator(UrlLocator);

/// What one step of the URL locator reports.
#[derive(Clone, Copy, Debug, PartialEq, Eq)]
pub enum UrlStep {
    /// The characters fed so far end a URL of this length, followed by this many characters
    /// that may not end a URL.
    Url(u16, u16),
    /// The characters fed so far may be the start of a URL scheme.
    Scheme,
    /// The locator has started over.
    Reset,
}

/// The characters a locator has been fed since it was created: its state is a function of them.
pub uninterp spec fn locator_fed(l: UrlLocator) -> Seq<char>;

/// What `UrlLocator::advance` reports once the locator has been fed `fed` (last character
/// included).
pub uninterp spec fn locator_step(fed: Seq<char>) -> UrlStep;

/// The locator keeps a `u16` length and `u8` bracket counters; feeding `c` after `fed` cannot
/// overflow them when this holds.
pub open spec fn locator_can_take(fed: Seq<char>, c: char) -> bool {
    fed.len() < 65535 && count_char(fed.push(c), '(') < 256 && count_char(fed.push(c), '[') < 256
}

/// `UrlLocator::new`: a locator that has been fed nothing.
#[verifier::external_body]
fn locator_new() -> (l: UrlLocator)
    ensures
        locator_fed(l) == Seq::<char>::empty(),
{
    UrlLocator::new()
}

/// `UrlLocator::advance`: feeds one character and reports the locator's position.
#[verifier::external_body]
fn locator_advance(l: &mut UrlLocator, c: char) -> (r: UrlStep)
    requires
        locator_can_take(locator_fed(*old(l)), c),
    ensures
        locator_fed(*final(l)) == locator_fed(*old(l)).push(c),
        r == locator_step(locator_fed(*final(l))),
{
    match l.advance(c) {
        UrlLocation::Url(a, b) => UrlStep::Url(a, b),
        UrlLocation::Scheme => UrlStep::Scheme,
        UrlLocation::Reset => UrlStep::Reset,
    }
}

/// Outcome of feeding the window `s[lo..hi]` to a fresh locator.
pub enum UrlScan {
    /// The locator stopped (reset or end of window); this many characters end the last URL seen
    /// (zero when none was).
    Done(int),
    /// The locator's counters could overflow.
    Overflow,
}

/// Feed `s[lo + k..hi]` to a locator that was already fed `s[lo..lo + k]`, with `end` the length
/// of the last URL reported so far.
pub open spec fn url_scan(s: Seq<char>, lo: int, hi: int, k: int, end: int) -> UrlScan
    decreases hi - lo - k,
{
    if k < 0 || lo + k >= hi {
        UrlScan::Done(end)
    } else if !locator_can_take(s.subrange(lo, lo + k), s[lo + k]) {
        UrlScan::Overflow
    } else {
        match locator_step(s.subrange(lo, lo + k + 1)) {
            UrlStep::Url(a, _) => url_scan(s, lo, hi, k + 1, a as int),
            UrlStep::Scheme => url_scan(s, lo, hi, k + 1, end),
            UrlStep::Reset => UrlScan::Done(end),
        }
    }
}

/// The number of characters `k` of `s[lo..hi]` whose UTF-8 encoding is exactly `bytes` long,
/// searching from `k`.
pub open spec fn chars_for_bytes(s: Seq<char>, lo: int, hi: int, k: int, bytes: int) -> Option<int>
    decreases hi - lo - k,
{
    if k < 0 || lo + k > hi {
        None
    } else if byte_len(s.subrange(lo, lo + k)) == bytes {
        Some(k)
    } else if byte_len(s.subrange(lo, lo + k)) > bytes || lo + k == hi {
        None
    } else {
        chars_for_bytes(s, lo, hi, k + 1, bytes)
    }
}

/// Result of looking for a URL at the start of a window.
pub enum UrlMatch {
    /// The URL is the first `n` characters of the window.
    Found(int),
    /// No URL starts the window.
    NoUrl,
    /// The window cannot be split where the locator says the URL ends (a byte offset inside a
    /// character), or the locator could overflow.
    Abort,
}

/// A URL at the start of `s[lo..hi]`: the locator's reported length is used as a byte offset
/// into the window.
#[verifier::opaque]
pub open spec fn raw_url_spec(s: Seq<char>, lo: int, hi: int) -> UrlMatch {
    match url_scan(s, lo, hi, 0, 0) {
        UrlScan::Overflow => UrlMatch::Abort,
        UrlScan::Done(end) => if end > 0 {
            match chars_for_bytes(s, lo, hi, 0, end) {
                Some(n) => UrlMatch::Found(n),
                None => UrlMatch::Abort,
            }
        } else {
            UrlMatch::NoUrl
        },
    }
}

/// Exec counterpart of `UrlMatch`.
pub enum UrlFound {
    Found(usize),
    NoUrl,
    Abort,
}

pub open spec fn url_found_matches(r: UrlFound, m: UrlMatch) -> bool {
    match (r, m) {
        (UrlFound::Found(a), UrlMatch::Found(b)) => a == b,
        (UrlFound::NoUrl, UrlMatch::NoUrl) => true,
        (UrlFound::Abort, UrlMatch::Abort) => true,
        _ => false,
    }
}

/// Look for a URL at the start of the window `v[lo..hi]`.
pub fn raw_url(v: &Vec<char>, lo: usize, hi: usize) -> (r: UrlFound)
    requires
        lo <= hi <= v@.len(),
    ensures
        url_found_matches(r, raw_url_spec(v@, lo as int, hi as int)),
        r matches UrlFound::Found(n) ==> 0 < n && lo + n <= hi,
{
    reveal(raw_url_spec);
    let mut locator = locator_new();
    let mut k: usize = 0;
    let mut end: u16 = 0;
    let mut parens: usize = 0;
    let mut brackets: usize = 0;
    let ghost s = v@;
    let mut stopped = false;
    while lo + k < hi && !stopped
        invariant
            lo <= hi <= v@.len(),
            s == v@,
            lo + k <= hi,
            !stopped ==> locator_fed(locator) == s.subrange(lo as int, lo + k),
            parens == count_char(s.subrange(lo as int, lo + k), '('),
            parens < 256,
            brackets < 256,
            brackets == count_char(s.subrange(lo as int, lo + k), '['),
            stopped ==> url_scan(s, lo as int, hi as int, 0, 0) == UrlScan::Done(end as int),
            !stopped ==> url_scan(s, lo as int, hi as int, 0, 0) == url_scan(
                s,
                lo as int,
                hi as int,
                k as int,
                end as int,
            ),
        decreases hi - lo - k, if stopped { 0int } else { 1int },
    {
        let c = v[lo + k];
        proof {
            lemma_count_char_push(s.subrange(lo as int, lo + k), c, '(');
            lemma_count_char_push(s.subrange(lo as int, lo + k), c, '[');
        }
        let np = if c == '(' { parens + 1 } else { parens };
        let nb = if c == '[' { brackets + 1 } else { brackets };
        if k >= 65535 || np >= 256 || nb >= 256 {
            reveal(raw_url_spec);
            return UrlFound::Abort;
        }
        let step = locator_advance(&mut locator, c);
        assert(s.subrange(lo as int, lo + k).push(c) =~= s.subrange(lo as int, lo + k + 1));
        match step {
            UrlStep::Url(a, _) => {
                end = a;
            },
            UrlStep::Scheme => {},
            UrlStep::Reset => {
                stopped = true;
            },
        }
        if !stopped {
            k = k + 1;
            parens = np;
            brackets = nb;
        }
    }
    assert(url_scan(v@, lo as int, hi as int, 0, 0) == UrlScan::Done(end as int));
    if end == 0 {
        return UrlFound::NoUrl;
    }
    // Find the number of characters whose encoding spans `end` bytes.
    let mut n: usize = 0;
    let mut bytes: usize = 0;
    while lo + n < hi && bytes < end as usize
        invariant
            lo <= hi <= v@.len(),
            lo + n <= hi,
            bytes == byte_len(v@.subrange(lo as int, lo + n)),
            bytes <= end,
            end > 0,
            url_scan(v@, lo as int, hi as int, 0, 0) == UrlScan::Done(end as int),
            chars_for_bytes(v@, lo as int, hi as int, 0, end as int) == chars_for_bytes(
                v@,
                lo as int,
                hi as int,
                n as int,
                end as int,
            ),
        decreases hi - lo - n,
    {
        let c = v[lo + n];
        let ghost n0 = n as int;
        assert(chars_for_bytes(v@, lo as int, hi as int, n0, end as int) == chars_for_bytes(
            v@,
            lo as int,
            hi as int,
            n0 + 1,
            end as int,
        ));
        proof {
            lemma_byte_len_push(v@.subrange(lo as int, lo + n), c);
            assert(v@.subrange(lo as int, lo + n).push(c) =~= v@.subrange(lo as int, lo + n + 1));
        }
        bytes = bytes + len_utf8(c);
        n = n + 1;
        if bytes > end as usize {
            assert(chars_for_bytes(v@, lo as int, hi as int, n as int, end as int) is None);
            reveal(raw_url_spec);
            return UrlFound::Abort;
        }
    }
    if bytes == end as usize {
        UrlFound::Found(n)
    } else {
        UrlFound::Abort
    }
}

} // verus!
