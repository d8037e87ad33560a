//! Character classes and small helpers over character sequences.
use vstd::prelude::*;

verus! {

/// Unicode `White_Space` property, as used by `char::is_whitespace` and `str::trim`.
pub open spec fn is_ws(c: char) -> bool {
    let u = c as u32;
    (0x9 <= u && u <= 0xd) || u == 0x20 || u == 0x85 || u == 0xa0 || u == 0x1680 || (0x2000 <= u
        && u <= 0x200a) || u == 0x2028 || u == 0x2029 || u == 0x202f || u == 0x205f || u == 0x3000
}

/// Whether `c` has the Unicode `White_Space` property.
pub fn is_whitespace(c: char) -> (r: bool)
    ensures
        r == is_ws(c),
{
    let u = c as u32;
    (0x9 <= u && u <= 0xd) || u == 0x20 || u == 0x85 || u == 0xa0 || u == 0x1680 || (0x2000 <= u
        && u <= 0x200a) || u == 0x2028 || u == 0x2029 || u == 0x202f || u == 0x205f || u == 0x3000
}

/// The characters that the `multispace` family of matchers accepts.
pub open spec fn is_multispace(c: char) -> bool {
    c == ' ' || c == '\t' || c == '\r' || c == '\n'
}

pub fn is_multispace_char(c: char) -> (r: bool)
    ensures
        r == is_multispace(c),
{
    c == ' ' || c == '\t' || c == '\r' || c == '\n'
}

/// A character that is neither whitespace nor, once truncated to a byte, a newline.
pub open spec fn is_nonws(c: char) -> bool {
    !is_ws(c) && (c as u32) % 256 != 10
}

pub fn nonws_char(c: char) -> (r: bool)
    ensures
        r == is_nonws(c),
{
    let u = c as u32;
    !is_whitespace(c) && u % 256 != 10
}

/// Number of bytes in the UTF-8 encoding of `c`.
pub open spec fn utf8_len(c: char) -> nat {
    let u = c as u32;
    if u < 0x80 {
        1
    } else if u < 0x800 {
        2
    } else if u < 0x10000 {
        3
    } else {
        4
    }
}

pub fn len_utf8(c: char) -> (r: usize)
    ensures
        r == utf8_len(c),
{
    let u = c as u32;
    if u < 0x80 {
        1
    } else if u < 0x800 {
        2
    } else if u < 0x10000 {
        3
    } else {
        4
    }
}

/// Number of bytes in the UTF-8 encoding of a character sequence.
pub open spec fn byte_len(s: Seq<char>) -> nat
    decreases s.len(),
{
    if s.len() == 0 {
        0
    } else {
        byte_len(s.drop_last()) + utf8_len(s.last())
    }
}

pub proof fn lemma_byte_len_push(s: Seq<char>, c: char)
    ensures
        byte_len(s.push(c)) == byte_len(s) + utf8_len(c),
{
    assert(s.push(c).drop_last() =~= s);
}

pub proof fn lemma_byte_len_ge(s: Seq<char>)
    ensures
        byte_len(s) >= s.len(),
    decreases s.len(),
{
    if s.len() > 0 {
        lemma_byte_len_ge(s.drop_last());
    }
}

/// `s` holds `pat` at position `j`, within the window ending at `hi`.
pub open spec fn starts_at(s: Seq<char>, j: int, hi: int, pat: Seq<char>) -> bool {
    0 <= j && j + pat.len() <= hi && hi <= s.len() && forall|k: int|
        0 <= k < pat.len() ==> #[trigger] s[j + k] == pat[k]
}

pub fn starts_with_at(v: &Vec<char>, j: usize, hi: usize, pat: &[char]) -> (r: bool)
    requires
        hi <= v@.len(),
    ensures
        r == starts_at(v@, j as int, hi as int, pat@),
{
    if j > hi || hi - j < pat.len() {
        return false;
    }
    let mut k: usize = 0;
    while k < pat.len()
        invariant
            k <= pat@.len(),
            j + pat@.len() <= hi <= v@.len(),
            forall|m: int| 0 <= m < k ==> #[trigger] v@[j + m] == pat@[m],
        decreases pat@.len() - k,
    {
        if v[j + k] != pat[k] {
            return false;
        }
        k = k + 1;
    }
    true
}

/// First position `j >= from` in the window `[.., hi)` at which `pat` occurs.
pub open spec fn find_from(s: Seq<char>, from: int, hi: int, pat: Seq<char>) -> Option<int>
    decreases hi - from + 1,
{
    if from < 0 || from + pat.len() > hi {
        None
    } else if starts_at(s, from, hi, pat) {
        Some(from)
    } else {
        find_from(s, from + 1, hi, pat)
    }
}

pub proof fn lemma_find_from_bounds(s: Seq<char>, from: int, hi: int, pat: Seq<char>)
    ensures
        find_from(s, from, hi, pat) matches Some(j) ==> from <= j && j + pat.len() <= hi
            && starts_at(s, j, hi, pat),
        find_from(s, from, hi, pat) matches Some(j) ==> forall|m: int|
            from <= m < j ==> !starts_at(s, m, hi, pat),
    decreases hi - from + 1,
{
    if from < 0 || from + pat.len() > hi {
    } else if starts_at(s, from, hi, pat) {
    } else {
        lemma_find_from_bounds(s, from + 1, hi, pat);
    }
}

pub fn find(v: &Vec<char>, from: usize, hi: usize, pat: &[char]) -> (r: Option<usize>)
    requires
        hi <= v@.len(),
    ensures
        match r {
            Some(j) => find_from(v@, from as int, hi as int, pat@) == Some(j as int),
            None => find_from(v@, from as int, hi as int, pat@) is None,
        },
{
    let mut j = from;
    while j <= hi && hi - j >= pat.len()
        invariant
            from <= j,
            hi <= v@.len(),
            find_from(v@, from as int, hi as int, pat@) == find_from(
                v@,
                j as int,
                hi as int,
                pat@,
            ),
        decreases hi - j,
    {
        if starts_with_at(v, j, hi, pat) {
            return Some(j);
        }
        j = j + 1;
    }
    None
}

/// Convert a string slice into its characters.
pub fn to_chars(s: &str) -> (r: Vec<char>)
    ensures
        r@ == s@,
{
    let mut r: Vec<char> = Vec::new();
    broadcast use vstd::string::axiom_spec_iter;

    for c in it: s.chars()
        invariant
            it.seq() == s@,
            r@ == s@.take(it.index() as int),
    {
        r.push(c);
    }
    assert(r@ =~= s@);
    r
}

/// Number of occurrences of `c` in `s`.
pub open spec fn count_char(s: Seq<char>, c: char) -> nat
    decreases s.len(),
{
    if s.len() == 0 {
        0
    } else {
        count_char(s.drop_last(), c) + if s.last() == c {
            1nat
        } else {
            0nat
        }
    }
}

pub proof fn lemma_count_char_push(s: Seq<char>, x: char, c: char)
    ensures
        count_char(s.push(x), c) == count_char(s, c) + if x == c {
            1nat
        } else {
            0nat
        },
{
    assert(s.push(x).drop_last() =~= s);
}

/// Classes of characters that the grammar takes runs of.
#[derive(Clone, Copy, PartialEq, Eq, Debug)]
pub enum CharClass {
    /// Space, tab, carriage return, line feed.
    Multispace,
    /// Unicode whitespace.
    Whitespace,
    /// Characters of a bare word: not whitespace and not a comma.
    Word,
    /// Anything but a backtick.
    NotBacktick,
    /// Anything but a colon or a backtick.
    NotColonOrBacktick,
    /// Characters of a Logseq attribute name: a word character that is not a colon.
    AttrName,
    /// Whitespace or a comma.
    TagSeparator,
    /// A tab.
    Tab,
    /// A `#`.
    Hash,
}

pub open spec fn in_class(k: CharClass, c: char) -> bool {
    match k {
        CharClass::Multispace => is_multispace(c),
        CharClass::Whitespace => is_ws(c),
        CharClass::Word => is_nonws(c) && c != ',',
        CharClass::NotBacktick => c != '`',
        CharClass::NotColonOrBacktick => c != ':' && c != '`',
        CharClass::AttrName => is_nonws(c) && c != ',' && c != ':',
        CharClass::TagSeparator => is_ws(c) || c == ',',
        CharClass::Tab => c == '\t',
        CharClass::Hash => c == '#',
    }
}

pub fn is_in_class(k: CharClass, c: char) -> (r: bool)
    ensures
        r == in_class(k, c),
{
    match k {
        CharClass::Multispace => is_multispace_char(c),
        CharClass::Whitespace => is_whitespace(c),
        CharClass::Word => nonws_char(c) && c != ',',
        CharClass::NotBacktick => c != '`',
        CharClass::NotColonOrBacktick => c != ':' && c != '`',
        CharClass::AttrName => nonws_char(c) && c != ',' && c != ':',
        CharClass::TagSeparator => is_whitespace(c) || c == ',',
        CharClass::Tab => c == '\t',
        CharClass::Hash => c == '#',
    }
}

/// End of the longest run of `k` characters starting at `i` in the window ending at `hi`.
pub open spec fn span(s: Seq<char>, i: int, hi: int, k: CharClass) -> int
    decreases hi - i,
{
    if i < 0 || i >= hi || i >= s.len() || !in_class(k, s[i]) {
        i
    } else {
        span(s, i + 1, hi, k)
    }
}

pub proof fn lemma_span(s: Seq<char>, i: int, hi: int, k: CharClass)
    requires
        0 <= i <= hi <= s.len(),
    ensures
        i <= span(s, i, hi, k) <= hi,
        forall|m: int| i <= m < span(s, i, hi, k) ==> in_class(k, #[trigger] s[m]),
        span(s, i, hi, k) < hi ==> !in_class(k, s[span(s, i, hi, k)]),
    decreases hi - i,
{
    if i < hi && in_class(k, s[i]) {
        lemma_span(s, i + 1, hi, k);
    }
}

/// Exec counterpart of `span`.
pub fn span_of(v: &Vec<char>, i: usize, hi: usize, k: CharClass) -> (r: usize)
    requires
        i <= hi <= v@.len(),
    ensures
        r == span(v@, i as int, hi as int, k),
        i <= r <= hi,
{
    proof {
        lemma_span(v@, i as int, hi as int, k);
    }
    let mut j = i;
    while j < hi && is_in_class(k, v[j])
        invariant
            i <= j <= hi <= v@.len(),
            span(v@, i as int, hi as int, k) == span(v@, j as int, hi as int, k),
        decreases hi - j,
    {
        j = j + 1;
    }
    j
}

/// Start of the trailing run of whitespace of the window `s[lo..hi]`.
pub open spec fn rspan_ws(s: Seq<char>, lo: int, hi: int) -> int
    decreases hi - lo,
{
    if hi <= lo || hi > s.len() || !is_ws(s[hi - 1]) {
        hi
    } else {
        rspan_ws(s, lo, hi - 1)
    }
}

pub fn rspan_whitespace(v: &Vec<char>, lo: usize, hi: usize) -> (r: usize)
    requires
        lo <= hi <= v@.len(),
    ensures
        r == rspan_ws(v@, lo as int, hi as int),
        lo <= r <= hi,
{
    let mut j = hi;
    while j > lo && is_whitespace(v[j - 1])
        invariant
            lo <= j <= hi <= v@.len(),
            rspan_ws(v@, lo as int, hi as int) == rspan_ws(v@, lo as int, j as int),
        decreases j,
    {
        j = j - 1;
    }
    j
}

/// `String::push`: appends one character to the end of the string.
#[verifier::external_body]
pub(crate) fn push_char(s: &mut String, c: char)
    ensures
        final(s)@ == old(s)@.push(c),
{
    s.push(c)
}

/// The characters `v[lo..hi]` as a string.
pub fn string_of(v: &Vec<char>, lo: usize, hi: usize) -> (r: String)
    requires
        lo <= hi <= v@.len(),
    ensures
        r@ == v@.subrange(lo as int, hi as int),
{
    let mut r = String::new();
    let mut i = lo;
    while i < hi
        invariant
            lo <= i <= hi <= v@.len(),
            r@ == v@.subrange(lo as int, i as int),
        decreases hi - i,
    {
        push_char(&mut r, v[i]);
        assert(v@.subrange(lo as int, i + 1) =~= v@.subrange(lo as int, i as int).push(v@[i as int]));
        i = i + 1;
    }
    r
}

/// Whether the characters `v` spell out `s` exactly.
pub fn chars_equal(v: &Vec<char>, s: &str) -> (r: bool)
    ensures
        r == (v@ == s@),
{
    let w = to_chars(s);
    if v.len() != w.len() {
        return false;
    }
    let mut i: usize = 0;
    while i < v.len()
        invariant
            w@ == s@,
            v@.len() == w@.len(),
            i <= v@.len(),
            forall|k: int| 0 <= k < i ==> v@[k] == w@[k],
        decreases v@.len() - i,
    {
        if v[i] != w[i] {
            return false;
        }
        i = i + 1;
    }
    assert(v@ =~= w@);
    true
}

} // verus!
