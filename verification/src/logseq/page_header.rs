//! The attributes at the top of a page: YAML front matter between `---` lines, or Logseq
//! `name:: value` lines before the first block.
use vstd::prelude::*;

use crate::attr_map::texts;
use crate::chars::{chars_equal, rspan_whitespace, rspan_ws, to_chars};
use crate::logseq::attrs::{attr_line_spec, parse_attr_line};
use crate::logseq::blocks::Lines;

verus! {

pub open spec fn lit_dashes() -> Seq<char> {
    seq!['-', '-', '-']
}

pub open spec fn starts_with_dash(s: Seq<char>) -> bool {
    s.len() > 0 && s[0] == '-'
}

/// `s` without its trailing whitespace.
pub open spec fn trim_end(s: Seq<char>) -> Seq<char> {
    s.subrange(0, rspan_ws(s, 0, s.len() as int))
}

/// The separator of an attribute line: `:` in YAML front matter, `::` otherwise.
pub open spec fn header_separator(yaml: bool) -> Seq<char> {
    if yaml {
        seq![':']
    } else {
        seq![':', ':']
    }
}

/// The attribute lines after the first line of a header, and where reading stopped. A line that
/// starts a block (Logseq style) or that is not an attribute is left for the block reader; the
/// closing `---` of YAML front matter is taken; an empty line that is not an attribute is taken.
pub open spec fn header_loop(
    lines: Seq<Seq<char>>,
    pos: int,
    yaml: bool,
    acc: Seq<(Seq<char>, Seq<Seq<char>>)>,
) -> (Seq<(Seq<char>, Seq<Seq<char>>)>, int)
    decreases lines.len() - pos,
{
    if pos < 0 || pos >= lines.len() {
        (acc, pos)
    } else {
        let line = lines[pos];
        if !yaml && starts_with_dash(line) {
            (acc, pos)
        } else if yaml && line == lit_dashes() {
            (acc, pos + 1)
        } else {
            match attr_line_spec(header_separator(yaml), line) {
                Some(kv) => header_loop(lines, pos + 1, yaml, acc.push(kv)),
                None => (
                    acc,
                    if line.len() == 0 {
                        pos + 1
                    } else {
                        pos
                    },
                ),
            }
        }
    }
}

/// The attributes of a page's header and where its content starts.
pub open spec fn page_header_spec(lines: Seq<Seq<char>>, pos: int) -> (
    Seq<(Seq<char>, Seq<Seq<char>>)>,
    int,
) {
    if pos < 0 || pos >= lines.len() {
        (Seq::empty(), pos)
    } else {
        let first = lines[pos];
        if first.len() == 0 {
            (Seq::empty(), pos + 1)
        } else if trim_end(first) == lit_dashes() {
            header_loop(lines, pos + 1, true, Seq::empty())
        } else if !starts_with_dash(first) {
            match attr_line_spec(seq![':', ':'], first) {
                Some(kv) => header_loop(lines, pos + 1, false, seq![kv]),
                None => (Seq::empty(), pos),
            }
        } else {
            (Seq::empty(), pos)
        }
    }
}

pub open spec fn attr_views(v: Seq<(String, Vec<String>)>) -> Seq<(Seq<char>, Seq<Seq<char>>)> {
    v.map_values(|e: (String, Vec<String>)| (e.0@, texts(e.1@)))
}

fn first_is_dash(s: &String) -> (r: bool)
    ensures
        r == starts_with_dash(s@),
{
    let c = to_chars(s.as_str());
    c.len() > 0 && c[0] == '-'
}

proof fn lemma_header_literals()
    ensures
        "---"@ == lit_dashes(),
        "::"@ == seq![':', ':'],
        ":"@ == seq![':'],
{
    reveal_strlit("---");
    assert("---"@ =~= lit_dashes());
    reveal_strlit("::");
    assert("::"@ =~= seq![':', ':']);
    reveal_strlit(":");
    assert(":"@ =~= seq![':']);
}

/// Read the page's header attributes, leaving the cursor at the first line of content.
pub fn parse_page_header(lines: &mut Lines) -> (r: Vec<(String, Vec<String>)>)
    requires
        old(lines).wf(),
    ensures
        final(lines).wf(),
        final(lines).lines@ == old(lines).lines@,
        ({
            let (attrs, next) = page_header_spec(old(lines).all(), old(lines).pos as int);
            attr_views(r@) == attrs && final(lines).pos == next
        }),
{
    proof {
        lemma_header_literals();
    }
    let ghost all = lines.all();
    let ghost pos0 = lines.pos as int;
    let mut page_attrs: Vec<(String, Vec<String>)> = Vec::new();
    assert(attr_views(page_attrs@) =~= Seq::<(Seq<char>, Seq<Seq<char>>)>::empty());
    let first_line = match lines.next_line() {
        None => {
            return page_attrs;
        },
        Some(l) => l,
    };
    assert(first_line@ == all[pos0]);
    if first_line.as_str().is_empty() {
        return page_attrs;
    }
    let fc = to_chars(first_line.as_str());
    let e = rspan_whitespace(&fc, 0, fc.len());
    let trimmed = crate::chars::string_of(&fc, 0, e);
    let tc = to_chars(trimmed.as_str());
    let yaml: bool;
    if chars_equal(&tc, "---") {
        yaml = true;
    } else if !first_is_dash(&first_line) {
        match parse_attr_line("::", first_line.as_str()) {
            Ok(Some((name, values))) => {
                yaml = false;
                page_attrs.push((name, values));
                assert(attr_views(page_attrs@) =~= seq![(name@, texts(values@))]);
            },
            _ => {
                lines.put_back();
                return page_attrs;
            },
        }
    } else {
        lines.put_back();
        return page_attrs;
    }
    let ghost sep = header_separator(yaml);
    loop
        invariant
            lines.wf(),
            lines.lines@ == old(lines).lines@,
            all == texts(old(lines).lines@),
            pos0 == old(lines).pos,
            header_loop(all, lines.pos as int, yaml, attr_views(page_attrs@)) == page_header_spec(
                all,
                pos0,
            ),
        decreases all.len() - lines.pos,
    {
        proof {
            lemma_header_literals();
        }
        let ghost here = lines.pos as int;
        let ghost acc = attr_views(page_attrs@);
        let line = match lines.next_line() {
            None => {
                return page_attrs;
            },
            Some(l) => l,
        };
        assert(line@ == all[here]);
        assert(header_loop(all, here, yaml, acc) == {
            let l = all[here];
            if !yaml && starts_with_dash(l) {
                (acc, here)
            } else if yaml && l == lit_dashes() {
                (acc, here + 1)
            } else {
                match attr_line_spec(header_separator(yaml), l) {
                    Some(kv) => header_loop(all, here + 1, yaml, acc.push(kv)),
                    None => (acc, if l.len() == 0 { here + 1 } else { here }),
                }
            }
        });
        if !yaml && first_is_dash(&line) {
            lines.put_back();
            return page_attrs;
        }
        if yaml {
            let lc = to_chars(line.as_str());
            if chars_equal(&lc, "---") {
                return page_attrs;
            }
        }
        let separator = if yaml {
            ":"
        } else {
            "::"
        };
        match parse_attr_line(separator, line.as_str()) {
            Ok(Some((name, values))) => {
                let ghost before = attr_views(page_attrs@);
                page_attrs.push((name, values));
                assert(attr_views(page_attrs@) =~= before.push((name@, texts(values@))));
            },
            _ => {
                if !line.as_str().is_empty() {
                    lines.put_back();
                }
                return page_attrs;
            },
        }
    }
}

} // verus!
