//! `name:: value` attribute lines and the values of a `tags` attribute.
use vstd::prelude::*;

use crate::chars::{
    find, find_from, lemma_find_from_bounds, lemma_span, rspan_whitespace, rspan_ws, span,
    span_of, string_of, to_chars, CharClass, chars_equal, in_class,
};
use crate::parse_string::{
    hashtag_exec, hashtag_spec, link_or_word_exec, link_or_word_spec, ParseError,
};

verus! {

/// A tag value at `lo`: the content of a hashtag, or a link or bare word.
/// `(content start, content end, next)`.
pub open spec fn tag_value_spec(s: Seq<char>, lo: int, hi: int) -> Option<(int, int, int)> {
    match hashtag_spec(s, lo, hi) {
        Some((c0, c1, n, _)) => Some((c0, c1, n)),
        None => link_or_word_spec(s, lo, hi),
    }
}

/// The values after the first one: each is preceded by a run of whitespace and commas. The list
/// ends at the first place where no separator, or no value after it, is found.
pub open spec fn tag_values_from(s: Seq<char>, i: int, hi: int) -> Seq<Seq<char>>
    decreases hi - i,
{
    let e = span(s, i, hi, CharClass::TagSeparator);
    if e <= i || e > hi {
        Seq::empty()
    } else {
        match tag_value_spec(s, e, hi) {
            Some((c0, c1, n)) => if n <= i || n > hi {
                Seq::empty()
            } else {
                seq![s.subrange(c0, c1)] + tag_values_from(s, n, hi)
            },
            None => Seq::empty(),
        }
    }
}

/// The values of a `tags` attribute: a list of tag values separated by whitespace and commas.
pub open spec fn tag_values_spec(s: Seq<char>) -> Seq<Seq<char>> {
    let hi = s.len() as int;
    match tag_value_spec(s, 0, hi) {
        Some((c0, c1, n)) => seq![s.subrange(c0, c1)] + tag_values_from(s, n, hi),
        None => Seq::empty(),
    }
}

/// `s` with the whitespace at both ends removed.
pub open spec fn trimmed(s: Seq<char>) -> Seq<char> {
    let a = span(s, 0, s.len() as int, CharClass::Whitespace);
    s.subrange(a, rspan_ws(s, a, s.len() as int))
}

pub open spec fn lit_tags() -> Seq<char> {
    seq!['t', 'a', 'g', 's']
}

/// What `parse_attr_line` finds in `line`: nothing if `sep` does not occur or the text before
/// its first occurrence holds whitespace; otherwise the name before it and the values after it
/// (the trimmed text, or for `tags` its tag values).
pub open spec fn attr_line_spec(sep: Seq<char>, line: Seq<char>) -> Option<(Seq<char>, Seq<Seq<char>>)> {
    match find_from(line, 0, line.len() as int, sep) {
        None => None,
        Some(j) => {
            let name = line.subrange(0, j);
            let value = trimmed(line.subrange(j + sep.len(), line.len() as int));
            if exists|k: int| 0 <= k < name.len() && in_class(CharClass::Whitespace, #[trigger] name[k]) {
                None
            } else if name == lit_tags() {
                Some((name, tag_values_spec(value)))
            } else {
                Some((name, seq![value]))
            }
        },
    }
}

/// A line gives no attribute exactly when the separator does not occur in it, or the text before
/// its first occurrence holds whitespace. Otherwise that text is the name, and the value, but
/// for `tags`, is the rest of the line, trimmed.
pub proof fn law_attr_line_found(sep: Seq<char>, line: Seq<char>)
    ensures
        match find_from(line, 0, line.len() as int, sep) {
            None => attr_line_spec(sep, line) is None,
            Some(j) => {
                let name = line.subrange(0, j);
                &&& attr_line_spec(sep, line) is None <==> exists|k: int|
                    0 <= k < name.len() && in_class(CharClass::Whitespace, #[trigger] name[k])
                &&& attr_line_spec(sep, line) is Some && name != lit_tags() ==> attr_line_spec(sep, line)
                    == Some((name, seq![trimmed(line.subrange(j + sep.len(), line.len() as int))]))
            },
        },
{
}

pub open spec fn string_views(v: Seq<String>) -> Seq<Seq<char>> {
    v.map_values(|x: String| x@)
}

/// Why an attribute line could not be read.
#[derive(Debug, Clone, Copy, PartialEq, Eq, Structural)]
pub enum AttrError {
    /// The values of the attribute could not be parsed.
    Values,
}

pub(crate) fn tag_value_exec(v: &Vec<char>, lo: usize, hi: usize) -> (r: Option<(usize, usize, usize)>)
    requires
        lo <= hi <= v@.len(),
    ensures
        match r {
            Some((c0, c1, n)) => tag_value_spec(v@, lo as int, hi as int) == Some(
                (c0 as int, c1 as int, n as int),
            ) && lo <= c0 <= c1 <= n <= hi && lo < n,
            None => tag_value_spec(v@, lo as int, hi as int) is None,
        },
{
    match hashtag_exec(v, lo, hi) {
        Some((c0, c1, n, _)) => Some((c0, c1, n)),
        None => link_or_word_exec(v, lo, hi),
    }
}

/// A run of whitespace and commas at the start of the input: the rest of the input and the run.
pub fn tag_value_separator(input: &str) -> (r: Result<(String, String), ParseError>)
    ensures
        ({
            let e = span(input@, 0, input@.len() as int, CharClass::TagSeparator);
            if e > 0 {
                r matches Ok((rest, m)) && rest@ == input@.subrange(e, input@.len() as int) && m@
                    == input@.subrange(0, e)
            } else {
                r == Err::<(String, String), ParseError>(ParseError::NoMatch)
            }
        }),
{
    let v = to_chars(input);
    let hi = v.len();
    let e = span_of(&v, 0, hi, CharClass::TagSeparator);
    if e > 0 {
        Ok((string_of(&v, e, hi), string_of(&v, 0, e)))
    } else {
        Err(ParseError::NoMatch)
    }
}

/// One tag value at the start of the input: the rest of the input and the value.
pub fn parse_tag_value(input: &str) -> (r: Result<(String, String), ParseError>)
    ensures
        match tag_value_spec(input@, 0, input@.len() as int) {
            Some((c0, c1, n)) => r matches Ok((rest, value)) && rest@ == input@.subrange(
                n,
                input@.len() as int,
            ) && value@ == input@.subrange(c0, c1),
            None => r == Err::<(String, String), ParseError>(ParseError::NoMatch),
        },
{
    let v = to_chars(input);
    let hi = v.len();
    match tag_value_exec(&v, 0, hi) {
        Some((c0, c1, n)) => Ok((string_of(&v, n, hi), string_of(&v, c0, c1))),
        None => Err(ParseError::NoMatch),
    }
}

fn tag_values_of(v: &Vec<char>, lo: usize, hi: usize) -> (r: Vec<String>)
    requires
        lo <= hi <= v@.len(),
    ensures
        string_views(r@) == tag_values_spec(v@.subrange(lo as int, hi as int)),
{
    let ghost s = v@.subrange(lo as int, hi as int);
    let w = sub_chars(v, lo, hi);
    let n = w.len();
    let mut out: Vec<String> = Vec::new();
    let first = tag_value_exec(&w, 0, n);
    let (c0, c1, mut i) = match first {
        None => {
            return out;
        },
        Some(t) => t,
    };
    out.push(string_of(&w, c0, c1));
    let ghost head = seq![s.subrange(c0 as int, c1 as int)];
    assert(string_views(out@) =~= head);
    let ghost mut acc: Seq<Seq<char>> = head;
    loop
        invariant
            lo <= hi <= v@.len(),
            s == v@.subrange(lo as int, hi as int),
            w@ == s,
            n == s.len(),
            i <= n,
            string_views(out@) == acc,
            acc + tag_values_from(s, i as int, n as int) == tag_values_spec(s),
        decreases n - i,
    {
        proof {
            lemma_span(s, i as int, n as int, CharClass::TagSeparator);
        }
        let e = span_of(&w, i, n, CharClass::TagSeparator);
        if e <= i {
            proof {
                lemma_tag_values_stop(s, i as int, n as int);
                assert(acc + Seq::<Seq<char>>::empty() =~= acc);
            }
            return out;
        }
        match tag_value_exec(&w, e, n) {
            None => {
                proof {
                    lemma_tag_values_stop(s, i as int, n as int);
                    assert(acc + Seq::<Seq<char>>::empty() =~= acc);
                }
                return out;
            },
            Some((d0, d1, m)) => {
                let ghost x = s.subrange(d0 as int, d1 as int);
                proof {
                    lemma_tag_values_next(s, i as int, n as int);
                    assert(acc + (seq![x] + tag_values_from(s, m as int, n as int)) =~= acc.push(x)
                        + tag_values_from(s, m as int, n as int));
                }
                let piece = string_of(&w, d0, d1);
                out.push(piece);
                proof {
                    acc = acc.push(x);
                }
                assert(string_views(out@) =~= acc);
                i = m;
            },
        }
    }
}

proof fn lemma_tag_values_stop(s: Seq<char>, i: int, hi: int)
    requires
        0 <= i <= hi <= s.len(),
        span(s, i, hi, CharClass::TagSeparator) <= i || tag_value_spec(
            s,
            span(s, i, hi, CharClass::TagSeparator),
            hi,
        ) is None,
    ensures
        tag_values_from(s, i, hi) == Seq::<Seq<char>>::empty(),
{
}

proof fn lemma_tag_values_next(s: Seq<char>, i: int, hi: int)
    requires
        0 <= i <= hi <= s.len(),
        i < span(s, i, hi, CharClass::TagSeparator) <= hi,
        tag_value_spec(s, span(s, i, hi, CharClass::TagSeparator), hi) matches Some((c0, c1, n)) && i < n <= hi,
    ensures
        tag_value_spec(s, span(s, i, hi, CharClass::TagSeparator), hi) matches Some((c0, c1, n))
            && tag_values_from(s, i, hi) == seq![s.subrange(c0, c1)] + tag_values_from(s, n, hi),
{
}

/// The characters `v[lo..hi]` as a vector of their own.
fn sub_chars(v: &Vec<char>, lo: usize, hi: usize) -> (r: Vec<char>)
    requires
        lo <= hi <= v@.len(),
    ensures
        r@ == v@.subrange(lo as int, hi as int),
{
    let mut r: Vec<char> = Vec::new();
    let mut i = lo;
    while i < hi
        invariant
            lo <= i <= hi <= v@.len(),
            r@ == v@.subrange(lo as int, i as int),
        decreases hi - i,
    {
        r.push(v[i]);
        assert(r@ =~= v@.subrange(lo as int, i + 1));
        i = i + 1;
    }
    r
}

/// The values of a `tags` attribute, separated by whitespace and commas. Parsing stops at the
/// first place where no further value follows; it never fails.
pub fn parse_tag_values(input: &str) -> (r: Result<Vec<String>, AttrError>)
    ensures
        r matches Ok(v) && string_views(v@) == tag_values_spec(input@),
{
    let v = to_chars(input);
    let hi = v.len();
    let out = tag_values_of(&v, 0, hi);
    assert(v@.subrange(0, hi as int) =~= v@);
    Ok(out)
}

/// Read `name<sep> value` from a line. Nothing is found when `sep` does not occur or the name
/// holds whitespace. The value is trimmed; a `tags` attribute is split into its tag values.
pub fn parse_attr_line(separator: &str, line: &str) -> (r: Result<
    Option<(String, Vec<String>)>,
    AttrError,
>)
    ensures
        r matches Ok(found) && match attr_line_spec(separator@, line@) {
            None => found is None,
            Some((name, values)) => found matches Some((n, vs)) && n@ == name && string_views(
                vs@,
            ) == values,
        },
{
    let v = to_chars(line);
    let sep = to_chars(separator);
    let hi = v.len();
    proof {
        lemma_find_from_bounds(v@, 0, hi as int, sep@);
    }
    let j = match find(&v, 0, hi, sep.as_slice()) {
        None => {
            return Ok(None);
        },
        Some(j) => j,
    };
    let ghost name = v@.subrange(0, j as int);
    assert(find_from(line@, 0, line@.len() as int, separator@) == Some(j as int));
    let mut k: usize = 0;
    while k < j
        invariant
            j <= hi == v@.len(),
            k <= j,
            name == v@.subrange(0, j as int),
            v@ == line@,
            find_from(line@, 0, line@.len() as int, separator@) == Some(j as int),
            forall|m: int| 0 <= m < k ==> !in_class(CharClass::Whitespace, #[trigger] v@[m]),
        decreases j - k,
    {
        if crate::chars::is_in_class(CharClass::Whitespace, v[k]) {
            assert(name[k as int] == v@[k as int]);
            assert(in_class(CharClass::Whitespace, line@.subrange(0, j as int)[k as int]));
            assert(attr_line_spec(separator@, line@) is None);
            return Ok(None);
        }
        k = k + 1;
    }
    assert forall|m: int| 0 <= m < name.len() implies !in_class(
        CharClass::Whitespace,
        #[trigger] name[m],
    ) by {
        assert(name[m] == v@[m]);
    }
    let after = j + sep.len();
    let rv = sub_chars(&v, after, hi);
    let n = rv.len();
    let a = span_of(&rv, 0, n, CharClass::Whitespace);
    let b = rspan_whitespace(&rv, a, n);
    assert(rv@.subrange(a as int, b as int) == trimmed(v@.subrange(after as int, hi as int)));
    let attr_name = string_of(&v, 0, j);
    let name_chars = sub_chars(&v, 0, j);
    proof {
        reveal_strlit("tags");
        assert("tags"@ =~= lit_tags());
    }
    let values = if chars_equal(&name_chars, "tags") {
        tag_values_of(&rv, a, b)
    } else {
        let mut one: Vec<String> = Vec::new();
        one.push(string_of(&rv, a, b));
        assert(string_views(one@) =~= seq![rv@.subrange(a as int, b as int)]);
        one
    };
    Ok(Some((attr_name, values)))
}

} // verus!
