//! Escaping of the characters that HTML reserves.
use vstd::prelude::*;

use crate::chars::{push_char, to_chars};

verus! {

/// The entity that stands for a reserved character, if it is one.
pub open spec fn entity(c: char) -> Option<Seq<char>> {
    if c == '>' {
        Some(seq!['&', 'g', 't', ';'])
    } else if c == '<' {
        Some(seq!['&', 'l', 't', ';'])
    } else if c == '&' {
        Some(seq!['&', 'a', 'm', 'p', ';'])
    } else if c == '\'' {
        Some(seq!['&', '#', '3', '9', ';'])
    } else if c == '"' {
        Some(seq!['&', 'q', 'u', 'o', 't', ';'])
    } else {
        None
    }
}

/// What one character becomes in escaped text.
pub open spec fn escape_one(c: char) -> Seq<char> {
    match entity(c) {
        Some(e) => e,
        None => seq![c],
    }
}

/// The escaped form of a text: each character replaced by its entity, if it has one.
pub open spec fn escaped(s: Seq<char>) -> Seq<char>
    decreases s.len(),
{
    if s.len() == 0 {
        Seq::empty()
    } else {
        escaped(s.drop_last()) + escape_one(s.last())
    }
}

/// Whether a text holds a character that has an entity.
pub open spec fn needs_escape(s: Seq<char>) -> bool {
    exists|i: int| 0 <= i < s.len() && (#[trigger] entity(s[i])) is Some
}

/// The entity for `c`, if `c` is reserved in HTML.
pub fn escape_char(c: char) -> (r: Option<&'static str>)
    ensures
        match entity(c) {
            Some(e) => r matches Some(t) && t@ == e,
            None => r is None,
        },
{
    proof {
        reveal_strlit("&gt;");
        reveal_strlit("&lt;");
        reveal_strlit("&amp;");
        reveal_strlit("&#39;");
        reveal_strlit("&quot;");
    }
    if c == '>' {
        Some("&gt;")
    } else if c == '<' {
        Some("&lt;")
    } else if c == '&' {
        Some("&amp;")
    } else if c == '\'' {
        Some("&#39;")
    } else if c == '"' {
        Some("&quot;")
    } else {
        None
    }
}

/// Text with each HTML-reserved character replaced by its entity.
pub fn escape(input: &str) -> (r: String)
    ensures
        r@ == escaped(input@),
{
    let chars = to_chars(input);
    let mut output = String::new();
    let mut i: usize = 0;
    while i < chars.len()
        invariant
            chars@ == input@,
            i <= chars@.len(),
            output@ == escaped(chars@.take(i as int)),
        decreases chars@.len() - i,
    {
        let c = chars[i];
        match escape_char(c) {
            Some(e) => output.append(e),
            None => push_char(&mut output, c),
        }
        proof {
            assert(chars@.take(i + 1).drop_last() =~= chars@.take(i as int));
        }
        i = i + 1;
    }
    assert(chars@.take(chars@.len() as int) =~= chars@);
    output
}

/// A text with no reserved character is its own escaped form.
pub proof fn lemma_escape_identity(s: Seq<char>)
    requires
        !needs_escape(s),
    ensures
        escaped(s) == s,
    decreases s.len(),
{
    if s.len() > 0 {
        assert forall|i: int| 0 <= i < s.drop_last().len() implies (#[trigger] entity(
            s.drop_last()[i],
        )) is None by {
            assert(s.drop_last()[i] == s[i]);
        }
        lemma_escape_identity(s.drop_last());
        assert(entity(s[s.len() - 1]) is None);
        assert(s.drop_last().push(s.last()) =~= s);
    }
}

/// Escaping distributes over concatenation.
pub proof fn lemma_escape_concat(a: Seq<char>, b: Seq<char>)
    ensures
        escaped(a + b) == escaped(a) + escaped(b),
    decreases b.len(),
{
    if b.len() == 0 {
        assert(a + b =~= a);
        assert(escaped(a) + Seq::<char>::empty() =~= escaped(a));
    } else {
        lemma_escape_concat(a, b.drop_last());
        assert((a + b).drop_last() =~= a + b.drop_last());
        assert((a + b).last() == b.last());
        assert(escaped(a) + escaped(b.drop_last()) + escape_one(b.last()) =~= escaped(a) + (
        escaped(b.drop_last()) + escape_one(b.last())));
    }
}

/// The escaped form of a text holds no bare `<`, `>`, `"` or `'`: every such character that
/// could end a tag or an attribute value has become an entity.
pub proof fn lemma_escaped_has_no_markup(s: Seq<char>)
    ensures
        forall|i: int|
            0 <= i < escaped(s).len() ==> {
                let c = #[trigger] escaped(s)[i];
                c != '<' && c != '>' && c != '"' && c != '\''
            },
    decreases s.len(),
{
    if s.len() > 0 {
        lemma_escaped_has_no_markup(s.drop_last());
        let p = escaped(s.drop_last());
        let q = escape_one(s.last());
        assert forall|i: int| 0 <= i < escaped(s).len() implies {
            let c = #[trigger] escaped(s)[i];
            c != '<' && c != '>' && c != '"' && c != '\''
        } by {
            if i < p.len() {
                assert(escaped(s)[i] == p[i]);
            } else {
                assert(escaped(s)[i] == q[i - p.len()]);
            }
        }
    }
}

} // verus!
