//! The inline grammar of Roam and Logseq block text.
//!
//! Every parser reads a window `s[lo..hi]` of a character sequence and, on success, reports the
//! position where it stopped. Alternatives are tried in order and the first that matches wins; a
//! later alternative is never tried once an earlier one matched. `Abort` marks the inputs on which
//! the grammar cannot be carried out (see `raw_url_spec` and `unbalanced_spec`).
use vstd::prelude::*;

use crate::chars::{
    find, find_from, lemma_find_from_bounds, rspan_whitespace, rspan_ws, span, span_of,
    starts_at, starts_with_at, string_of, CharClass,
};
use crate::chars::to_chars;
use crate::url::{raw_url, raw_url_spec, UrlFound, UrlMatch};

verus! {

#[derive(Debug, Clone, Copy, PartialEq, Eq, Structural)]
pub enum ContentStyle {
    Roam,
    Logseq,
}

/// A parsed element of block text.
#[derive(Debug, PartialEq, Eq)]
pub enum Expression {
    Text(String),
    RawHtml(String),
    RawHyperlink(String),
    Image { alt: String, url: String },
    Video { url: String },
    BraceDirective(String),
    Table,
    Todo { done: bool },
    PageEmbed(String),
    BlockEmbed(String),
    TripleBacktick(String),
    SingleBacktick(String),
    Hashtag(String, bool),
    Link(String),
    MarkdownInternalLink { label: String, page: String },
    MarkdownExternalLink { title: String, url: String },
    BlockRef(String),
    Attribute { name: String, value: Vec<Expression> },
    Bold(Vec<Expression>),
    Italic(Vec<Expression>),
    Strike(Vec<Expression>),
    Highlight(Vec<Expression>),
    Latex(String),
    BlockQuote(Vec<Expression>),
    HRule,
}

/// Mathematical model of an `Expression`.
pub enum Expr {
    Text(Seq<char>),
    RawHtml(Seq<char>),
    RawHyperlink(Seq<char>),
    Image { alt: Seq<char>, url: Seq<char> },
    Video { url: Seq<char> },
    BraceDirective(Seq<char>),
    Table,
    Todo { done: bool },
    PageEmbed(Seq<char>),
    BlockEmbed(Seq<char>),
    TripleBacktick(Seq<char>),
    SingleBacktick(Seq<char>),
    Hashtag(Seq<char>, bool),
    Link(Seq<char>),
    MarkdownInternalLink { label: Seq<char>, page: Seq<char> },
    MarkdownExternalLink { title: Seq<char>, url: Seq<char> },
    BlockRef(Seq<char>),
    Attribute { name: Seq<char>, value: Seq<Expr> },
    Bold(Seq<Expr>),
    Italic(Seq<Expr>),
    Strike(Seq<Expr>),
    Highlight(Seq<Expr>),
    Latex(Seq<char>),
    BlockQuote(Seq<Expr>),
    HRule,
}

#[verifier::opaque]
pub open spec fn expr_model(e: Expression) -> Expr
    decreases e,
{
    match e {
        Expression::Text(s) => Expr::Text(s@),
        Expression::RawHtml(s) => Expr::RawHtml(s@),
        Expression::RawHyperlink(s) => Expr::RawHyperlink(s@),
        Expression::Image { alt, url } => Expr::Image { alt: alt@, url: url@ },
        Expression::Video { url } => Expr::Video { url: url@ },
        Expression::BraceDirective(s) => Expr::BraceDirective(s@),
        Expression::Table => Expr::Table,
        Expression::Todo { done } => Expr::Todo { done },
        Expression::PageEmbed(s) => Expr::PageEmbed(s@),
        Expression::BlockEmbed(s) => Expr::BlockEmbed(s@),
        Expression::TripleBacktick(s) => Expr::TripleBacktick(s@),
        Expression::SingleBacktick(s) => Expr::SingleBacktick(s@),
        Expression::Hashtag(s, d) => Expr::Hashtag(s@, d),
        Expression::Link(s) => Expr::Link(s@),
        Expression::MarkdownInternalLink { label, page } => Expr::MarkdownInternalLink {
            label: label@,
            page: page@,
        },
        Expression::MarkdownExternalLink { title, url } => Expr::MarkdownExternalLink {
            title: title@,
            url: url@,
        },
        Expression::BlockRef(s) => Expr::BlockRef(s@),
        Expression::Attribute { name, value } => Expr::Attribute {
            name: name@,
            value: exprs_model(value@),
        },
        Expression::Bold(v) => Expr::Bold(exprs_model(v@)),
        Expression::Italic(v) => Expr::Italic(exprs_model(v@)),
        Expression::Strike(v) => Expr::Strike(exprs_model(v@)),
        Expression::Highlight(v) => Expr::Highlight(exprs_model(v@)),
        Expression::Latex(s) => Expr::Latex(s@),
        Expression::BlockQuote(v) => Expr::BlockQuote(exprs_model(v@)),
        Expression::HRule => Expr::HRule,
    }
}

pub open spec fn exprs_model(s: Seq<Expression>) -> Seq<Expr>
    decreases s,
{
    if s.len() == 0 {
        Seq::empty()
    } else {
        exprs_model(s.subrange(0, s.len() - 1)).push(expr_model(s[s.len() - 1]))
    }
}


/// The size of an expression: one, plus the sizes of the expressions inside it.
pub open spec fn esize(e: Expr) -> nat
    decreases e,
{
    match e {
        Expr::Attribute { name, value } => esizes(value) + 1,
        Expr::Bold(v) => esizes(v) + 1,
        Expr::Italic(v) => esizes(v) + 1,
        Expr::Strike(v) => esizes(v) + 1,
        Expr::Highlight(v) => esizes(v) + 1,
        Expr::BlockQuote(v) => esizes(v) + 1,
        _ => 1,
    }
}

/// The sizes of a list of expressions, added up.
pub open spec fn esizes(es: Seq<Expr>) -> nat
    decreases es,
{
    if es.len() == 0 {
        0
    } else {
        proof {
            vstd::seq::axiom_seq_subrange_decreases(es, 0, es.len() - 1);
        }
        esizes(es.subrange(0, es.len() - 1)) + esize(es[es.len() - 1])
    }
}

/// Each expression of a list is no larger than the list.
pub proof fn lemma_esize_within(es: Seq<Expr>, i: int)
    requires
        0 <= i < es.len(),
    ensures
        esize(es[i]) <= esizes(es),
    decreases es.len(),
{
    let init = es.subrange(0, es.len() - 1);
    if i < es.len() - 1 {
        lemma_esize_within(init, i);
        assert(init[i] == es[i]);
    }
}

/// Result of a grammar rule on a window: where it stopped and what it produced, no match, or an
/// input on which the rule cannot be carried out.
pub enum PRes<T> {
    Match(int, T),
    NoMatch,
    Abort,
}

/// `a` at `lo`, then the content up to the first `b`, then `b`: `(end of content, next)`.
pub open spec fn fenced(s: Seq<char>, lo: int, hi: int, a: Seq<char>, b: Seq<char>) -> Option<(int, int)> {
    if starts_at(s, lo, hi, a) {
        match find_from(s, lo + a.len(), hi, b) {
            Some(j) => if lo + a.len() <= j && j + b.len() <= hi {
                Some((j, j + b.len()))
            } else {
                None
            },
            None => None,
        }
    } else {
        None
    }
}

pub open spec fn lit_link_open() -> Seq<char> {
    seq!['[', '[']
}

pub open spec fn lit_link_close() -> Seq<char> {
    seq![']', ']']
}

/// `[[page]]` or a bare word: `(content start, content end, next)`.
pub open spec fn link_or_word_spec(s: Seq<char>, lo: int, hi: int) -> Option<(int, int, int)> {
    match fenced(s, lo, hi, lit_link_open(), lit_link_close()) {
        Some((j, n)) => Some((lo + 2, j, n)),
        None => {
            let e = span(s, lo, hi, CharClass::Word);
            if e > lo {
                Some((lo, e, e))
            } else {
                None
            }
        },
    }
}

/// `#tag`, `#[[a tag]]` or `#.tag`: `(content start, content end, next, dotted)`.
pub open spec fn hashtag_spec(s: Seq<char>, lo: int, hi: int) -> Option<(int, int, int, bool)> {
    if 0 <= lo < hi && hi <= s.len() && s[lo] == '#' {
        let dot = starts_at(s, lo + 1, hi, seq!['.']);
        let p = if dot {
            lo + 2
        } else {
            lo + 1
        };
        match link_or_word_spec(s, p, hi) {
            Some((c0, c1, n)) => Some((c0, c1, n, dot)),
            None => None,
        }
    } else {
        None
    }
}

/// `` `code` ``: `(content start, content end, next)`.
pub open spec fn single_backtick_spec(s: Seq<char>, lo: int, hi: int) -> Option<(int, int, int)> {
    if 0 <= lo < hi && hi <= s.len() && s[lo] == '`' {
        let e = span(s, lo + 1, hi, CharClass::NotBacktick);
        if e > lo + 1 && e < hi && s[e] == '`' {
            Some((lo + 1, e, e + 1))
        } else {
            None
        }
    } else {
        None
    }
}

/// Outcome of scanning for an unbalanced closing parenthesis.
pub enum Unbalanced {
    /// The position of the first `)` that closes nothing opened in the scan.
    Found(int),
    NotFound,
    /// A backslash is the last character of the window: the escape would read past its end.
    Abort,
}

/// Scan `s[i..hi]` for a `)` that closes nothing, with `depth` parentheses open; a backslash
/// escapes the character after it.
pub open spec fn unbalanced_spec(s: Seq<char>, i: int, hi: int, depth: int) -> Unbalanced
    decreases hi - i,
{
    if i < 0 || i >= hi || hi > s.len() {
        Unbalanced::NotFound
    } else if s[i] == '\\' {
        if i + 1 < hi {
            unbalanced_spec(s, i + 2, hi, depth)
        } else {
            Unbalanced::Abort
        }
    } else if s[i] == '(' {
        unbalanced_spec(s, i + 1, hi, depth + 1)
    } else if s[i] == ')' {
        if depth == 0 {
            Unbalanced::Found(i)
        } else {
            unbalanced_spec(s, i + 1, hi, depth - 1)
        }
    } else {
        unbalanced_spec(s, i + 1, hi, depth)
    }
}

/// `[title](url)`, where the url may hold balanced parentheses:
/// `(title end, url start, url end)`; the title starts at `lo + 1`.
pub open spec fn markdown_link_spec(s: Seq<char>, lo: int, hi: int) -> PRes<(int, int, int)> {
    match fenced(s, lo, hi, seq!['['], seq![']']) {
        None => PRes::NoMatch,
        Some((te, p)) => if p < hi && s[p] == '(' {
            match unbalanced_spec(s, p + 1, hi, 0) {
                Unbalanced::Found(j) => if p + 1 <= j < hi {
                    PRes::Match(j + 1, (te, p + 1, j))
                } else {
                    PRes::NoMatch
                },
                Unbalanced::NotFound => PRes::NoMatch,
                Unbalanced::Abort => PRes::Abort,
            }
        } else {
            PRes::NoMatch
        },
    }
}

/// `word` or `[[word]]` at `lo`: the position after it.
pub open spec fn fixed_word_spec(s: Seq<char>, lo: int, hi: int, w: Seq<char>) -> Option<int> {
    if starts_at(s, lo, hi, w) {
        Some(lo + w.len())
    } else if starts_at(s, lo, hi, lit_link_open()) && starts_at(s, lo + 2, hi, w) && starts_at(
        s,
        lo + 2 + w.len(),
        hi,
        lit_link_close(),
    ) {
        Some(lo + w.len() + 4)
    } else {
        None
    }
}

/// The contents of a `{{...}}` directive, tried in order.
pub open spec fn brace_contents_spec(cs: ContentStyle, s: Seq<char>, lo: int, hi: int) -> PRes<Expr> {
    let todo = if cs == ContentStyle::Roam {
        match fixed_word_spec(s, lo, hi, seq!['T', 'O', 'D', 'O']) {
            Some(n) => Some(PRes::Match(n, Expr::Todo { done: false })),
            None => match fixed_word_spec(s, lo, hi, seq!['D', 'O', 'I', 'N', 'G']) {
                Some(n) => Some(PRes::Match(n, Expr::Todo { done: false })),
                None => match fixed_word_spec(s, lo, hi, seq!['D', 'O', 'N', 'E']) {
                    Some(n) => Some(PRes::Match(n, Expr::Todo { done: true })),
                    None => None,
                },
            },
        }
    } else {
        None
    };
    if todo is Some {
        todo.unwrap()
    } else if fixed_word_spec(s, lo, hi, seq!['t', 'a', 'b', 'l', 'e']) is Some {
        PRes::Match(fixed_word_spec(s, lo, hi, seq!['t', 'a', 'b', 'l', 'e']).unwrap(), Expr::Table)
    } else {
        let video = match fixed_word_spec(s, lo, hi, seq!['v', 'i', 'd', 'e', 'o']) {
            Some(p) => {
                let m = span(s, p, hi, CharClass::Multispace);
                if m > p {
                    match raw_url_spec(s, m, hi) {
                        UrlMatch::Found(n) => PRes::Match(m + n, Expr::Video { url: s.subrange(m, m + n) }),
                        UrlMatch::NoUrl => PRes::NoMatch,
                        UrlMatch::Abort => PRes::Abort,
                    }
                } else {
                    PRes::NoMatch
                }
            },
            None => PRes::NoMatch,
        };
        if !(video is NoMatch) {
            video
        } else {
            let embed = match fixed_word_spec(s, lo, hi, seq!['e', 'm', 'b', 'e', 'd']) {
                Some(p) => {
                    let sep = if cs == ContentStyle::Roam {
                        if starts_at(s, p, hi, seq![':']) {
                            Some(span(s, p + 1, hi, CharClass::Multispace))
                        } else {
                            None
                        }
                    } else {
                        let m = span(s, p, hi, CharClass::Multispace);
                        if m > p {
                            Some(m)
                        } else {
                            None
                        }
                    };
                    match sep {
                        Some(q) => match fenced(s, q, hi, seq!['(', '('], seq![')', ')']) {
                            Some((j, n)) => PRes::Match(n, Expr::BlockEmbed(s.subrange(q + 2, j))),
                            None => match fenced(s, q, hi, lit_link_open(), lit_link_close()) {
                                Some((j, n)) => PRes::Match(n, Expr::PageEmbed(s.subrange(q + 2, j))),
                                None => PRes::NoMatch,
                            },
                        },
                        None => PRes::NoMatch,
                    }
                },
                None => PRes::NoMatch,
            };
            if embed is Match {
                embed
            } else {
                match link_or_word_spec(s, lo, hi) {
                    Some((c0, c1, n)) => PRes::Match(n, Expr::BraceDirective(s.subrange(c0, c1))),
                    None => PRes::NoMatch,
                }
            }
        }
    }
}

/// `{{...}}`: the trimmed contents parsed as a directive if they are one in full, else kept as
/// raw text.
pub open spec fn brace_directive_spec(cs: ContentStyle, s: Seq<char>, lo: int, hi: int) -> PRes<Expr> {
    if starts_at(s, lo, hi, seq!['{', '{']) {
        match find_from(s, lo + 2, hi, seq!['}', '}']) {
            Some(j) => if lo + 2 <= j && j + 2 <= hi {
                let a = span(s, lo + 2, j, CharClass::Whitespace);
                let b = rspan_ws(s, a, j);
                match brace_contents_spec(cs, s, a, b) {
                    PRes::Match(n, e) => if n == b {
                        PRes::Match(j + 2, e)
                    } else {
                        PRes::Match(j + 2, Expr::BraceDirective(s.subrange(a, b)))
                    },
                    PRes::NoMatch => PRes::Match(j + 2, Expr::BraceDirective(s.subrange(a, b))),
                    PRes::Abort => PRes::Abort,
                }
            } else {
                PRes::NoMatch
            },
            None => PRes::NoMatch,
        }
    } else {
        PRes::NoMatch
    }
}

/// Where the scan for the next directive of a window stops.
pub enum Scan {
    /// A directive at `k` that ends at `n`.
    Found(int, int, Expr),
    NotFound,
    Abort,
}

/// A span of text fenced by `b` on both sides, whose content is parsed as inline text.
pub open spec fn style_spec(cs: ContentStyle, s: Seq<char>, lo: int, hi: int, b: Seq<char>) -> PRes<Seq<Expr>>
    decreases hi - lo, 1int,
{
    match fenced(s, lo, hi, b, b) {
        Some((j, n)) => if b.len() > 0 && lo + b.len() <= j && n <= hi {
            match parse_inline_spec(cs, false, s, lo + b.len(), j) {
                Some(v) => PRes::Match(n, v),
                None => PRes::Abort,
            }
        } else {
            PRes::NoMatch
        },
        None => PRes::NoMatch,
    }
}

/// `name:: value`, taking the whole window: the name and the parsed value.
pub open spec fn attribute_spec(cs: ContentStyle, s: Seq<char>, lo: int, hi: int) -> PRes<(Seq<char>, Seq<Expr>)>
    decreases hi - lo, 0int,
{
    let (a, e, sep) = match cs {
        ContentStyle::Roam => (lo, span(s, lo, hi, CharClass::NotColonOrBacktick), seq![':', ':']),
        ContentStyle::Logseq => {
            let a = span(s, lo, hi, CharClass::Multispace);
            (a, span(s, a, hi, CharClass::AttrName), seq![':', ':', ' '])
        },
    };
    if e > a && starts_at(s, e, hi, sep) {
        let q = span(s, e + sep.len(), hi, CharClass::Multispace);
        if lo < q <= hi {
            match parse_inline_spec(cs, false, s, q, hi) {
                Some(v) => PRes::Match(hi, (s.subrange(a, e), v)),
                None => PRes::Abort,
            }
        } else {
            PRes::NoMatch
        }
    } else {
        PRes::NoMatch
    }
}

/// The first alternative if it matches (tagged with `bold`), else `rest`.
pub open spec fn alt_style(first: PRes<Seq<Expr>>, bold: bool, rest: PRes<(bool, Seq<Expr>)>) -> PRes<(bool, Seq<Expr>)> {
    match first {
        PRes::Match(n, v) => PRes::Match(n, (bold, v)),
        PRes::Abort => PRes::Abort,
        PRes::NoMatch => rest,
    }
}

/// Bold or italic text, from the results of the four fenced styles `**`, `__`, `_` and `*`:
/// `(bold, content)`. Roam writes `**bold**` and `__italic__`; Logseq writes `**bold**` or
/// `__bold__`, and `_italic_` or `*italic*`.
pub open spec fn emphasis_of(
    cs: ContentStyle,
    star2: PRes<Seq<Expr>>,
    under2: PRes<Seq<Expr>>,
    under1: PRes<Seq<Expr>>,
    star1: PRes<Seq<Expr>>,
) -> PRes<(bool, Seq<Expr>)> {
    match cs {
        ContentStyle::Roam => alt_style(star2, true, alt_style(under2, false, PRes::NoMatch)),
        ContentStyle::Logseq => alt_style(
            star2,
            true,
            alt_style(under2, true, alt_style(under1, false, alt_style(star1, false, PRes::NoMatch))),
        ),
    }
}

/// Bold or italic text at the start of the window.
pub open spec fn emphasis_spec(cs: ContentStyle, s: Seq<char>, lo: int, hi: int) -> PRes<(bool, Seq<Expr>)> {
    emphasis_of(
        cs,
        style_spec(cs, s, lo, hi, seq!['*', '*']),
        style_spec(cs, s, lo, hi, seq!['_', '_']),
        style_spec(cs, s, lo, hi, seq!['_']),
        style_spec(cs, s, lo, hi, seq!['*']),
    )
}

/// The directives that do not contain inline text, in the order they are tried.
pub open spec fn simple_directive_spec(cs: ContentStyle, s: Seq<char>, lo: int, hi: int) -> PRes<Expr> {
    match fenced(s, lo, hi, seq!['`', '`', '`'], seq!['`', '`', '`']) {
        Some((j, n)) => PRes::Match(n, Expr::TripleBacktick(s.subrange(lo + 3, j))),
        None => match single_backtick_spec(s, lo, hi) {
            Some((c0, c1, n)) => PRes::Match(n, Expr::SingleBacktick(s.subrange(c0, c1))),
            None => match brace_directive_spec(cs, s, lo, hi) {
                PRes::Match(n, e) => PRes::Match(n, e),
                PRes::Abort => PRes::Abort,
                PRes::NoMatch => match hashtag_spec(s, lo, hi) {
                    Some((c0, c1, n, dot)) => PRes::Match(n, Expr::Hashtag(s.subrange(c0, c1), dot)),
                    None => match fenced(s, lo, hi, lit_link_open(), lit_link_close()) {
                        Some((j, n)) => PRes::Match(n, Expr::Link(s.subrange(lo + 2, j))),
                        None => match fenced(s, lo, hi, seq!['(', '('], seq![')', ')']) {
                            Some((j, n)) => PRes::Match(n, Expr::BlockRef(s.subrange(lo + 2, j))),
                            None => links_spec(s, lo, hi),
                        },
                    },
                },
            },
        },
    }
}

/// Images, raw html and markdown links.
pub open spec fn links_spec(s: Seq<char>, lo: int, hi: int) -> PRes<Expr> {
    let image = if 0 <= lo < hi && hi <= s.len() && s[lo] == '!' {
        markdown_link_spec(s, lo + 1, hi)
    } else {
        PRes::NoMatch
    };
    match image {
        PRes::Match(n, (te, u0, u1)) => PRes::Match(
            n,
            Expr::Image { alt: s.subrange(lo + 2, te), url: s.subrange(u0, u1) },
        ),
        PRes::Abort => PRes::Abort,
        PRes::NoMatch => match fenced(
            s,
            lo,
            hi,
            seq!['@', '@', 'h', 't', 'm', 'l', ':', ' '],
            seq!['@', '@'],
        ) {
            Some((j, n)) => PRes::Match(n, Expr::RawHtml(s.subrange(lo + 8, j))),
            None => match markdown_link_spec(s, lo, hi) {
                PRes::Match(n, (te, u0, u1)) => PRes::Match(n, markdown_link_expr(s, lo + 1, te, u0, u1)),
                PRes::Abort => PRes::Abort,
                PRes::NoMatch => PRes::NoMatch,
            },
        },
    }
}

/// A markdown link whose url is exactly `[[page]]` links to that page; otherwise it is external.
pub open spec fn markdown_link_expr(s: Seq<char>, t0: int, t1: int, u0: int, u1: int) -> Expr {
    match fenced(s, u0, u1, lit_link_open(), lit_link_close()) {
        Some((j, n)) => if n == u1 {
            Expr::MarkdownInternalLink { label: s.subrange(t0, t1), page: s.subrange(u0 + 2, j) }
        } else {
            Expr::MarkdownExternalLink { title: s.subrange(t0, t1), url: s.subrange(u0, u1) }
        },
        None => Expr::MarkdownExternalLink { title: s.subrange(t0, t1), url: s.subrange(u0, u1) },
    }
}

/// Strike, highlight, latex and bare URLs.
pub open spec fn late_directive_spec(s: Seq<char>, lo: int, hi: int, strike: PRes<Seq<Expr>>, highlight: PRes<Seq<Expr>>) -> PRes<Expr> {
    match strike {
        PRes::Match(n, v) => PRes::Match(n, Expr::Strike(v)),
        PRes::Abort => PRes::Abort,
        PRes::NoMatch => match highlight {
            PRes::Match(n, v) => PRes::Match(n, Expr::Highlight(v)),
            PRes::Abort => PRes::Abort,
            PRes::NoMatch => match fenced(s, lo, hi, seq!['$', '$'], seq!['$', '$']) {
                Some((j, n)) => PRes::Match(n, Expr::Latex(s.subrange(lo + 2, j))),
                None => match raw_url_spec(s, lo, hi) {
                    UrlMatch::Found(n) => PRes::Match(lo + n, Expr::RawHyperlink(s.subrange(lo, lo + n))),
                    UrlMatch::NoUrl => PRes::NoMatch,
                    UrlMatch::Abort => PRes::Abort,
                },
            },
        },
    }
}

/// Strike-through (`~~`), highlight (`^^`), latex and bare URLs, in that order.
pub open spec fn late_spec(cs: ContentStyle, s: Seq<char>, lo: int, hi: int) -> PRes<Expr>
    decreases hi - lo, 2int,
{
    late_directive_spec(
        s,
        lo,
        hi,
        style_spec(cs, s, lo, hi, seq!['~', '~']),
        style_spec(cs, s, lo, hi, seq!['^', '^']),
    )
}

/// A directive at the start of the window, the alternatives tried in order.
pub open spec fn directive_spec(cs: ContentStyle, allow_attr: bool, s: Seq<char>, lo: int, hi: int) -> PRes<Expr>
    decreases hi - lo, 5int,
{
    match simple_directive_spec(cs, s, lo, hi) {
        PRes::Match(n, e) => PRes::Match(n, e),
        PRes::Abort => PRes::Abort,
        PRes::NoMatch => styled_directive_spec(cs, allow_attr, s, lo, hi),
    }
}

/// The directives that hold inline text, and attributes, in the order they are tried.
pub open spec fn styled_directive_spec(cs: ContentStyle, allow_attr: bool, s: Seq<char>, lo: int, hi: int) -> PRes<Expr>
    decreases hi - lo, 4int,
{
    match emphasis_of(
        cs,
        style_spec(cs, s, lo, hi, seq!['*', '*']),
        style_spec(cs, s, lo, hi, seq!['_', '_']),
        style_spec(cs, s, lo, hi, seq!['_']),
        style_spec(cs, s, lo, hi, seq!['*']),
    ) {
        PRes::Match(n, (bold, v)) => PRes::Match(n, if bold { Expr::Bold(v) } else { Expr::Italic(v) }),
        PRes::Abort => PRes::Abort,
        PRes::NoMatch => late_or_attribute_spec(cs, allow_attr, s, lo, hi),
    }
}

/// Strike, highlight, latex, bare URLs and, where allowed, an attribute.
pub open spec fn late_or_attribute_spec(cs: ContentStyle, allow_attr: bool, s: Seq<char>, lo: int, hi: int) -> PRes<Expr>
    decreases hi - lo, 3int,
{
    match late_spec(cs, s, lo, hi) {
        PRes::Match(n, e) => PRes::Match(n, e),
        PRes::Abort => PRes::Abort,
        PRes::NoMatch => if allow_attr {
            match attribute_spec(cs, s, lo, hi) {
                PRes::Match(n, (name, value)) => PRes::Match(n, Expr::Attribute { name, value }),
                PRes::Abort => PRes::Abort,
                PRes::NoMatch => PRes::NoMatch,
            }
        } else {
            PRes::NoMatch
        },
    }
}

/// The first position `k >= from` of the window at which a directive matches.
pub open spec fn scan_spec(cs: ContentStyle, allow_attr: bool, s: Seq<char>, k: int, hi: int) -> Scan
    decreases hi - k, 6int,
{
    if k < 0 || k >= hi {
        Scan::NotFound
    } else {
        match directive_spec(cs, allow_attr, s, k, hi) {
            PRes::Match(n, e) => Scan::Found(k, n, e),
            PRes::Abort => Scan::Abort,
            PRes::NoMatch => scan_spec(cs, allow_attr, s, k + 1, hi),
        }
    }
}

/// Inline text: directives, with the text between them kept as `Text`. Takes the whole window;
/// `None` when the grammar cannot be carried out on it.
#[verifier::opaque]
pub open spec fn parse_inline_spec(cs: ContentStyle, allow_attr: bool, s: Seq<char>, lo: int, hi: int) -> Option<Seq<Expr>>
    decreases hi - lo, 7int,
{
    if lo < 0 || lo >= hi {
        Some(Seq::empty())
    } else {
        match scan_spec(cs, allow_attr, s, lo, hi) {
            Scan::Found(k, n, e) => if lo <= k < n <= hi {
                match parse_inline_spec(cs, allow_attr, s, n, hi) {
                    Some(rest) => Some(
                        (if k > lo {
                            seq![Expr::Text(s.subrange(lo, k))]
                        } else {
                            Seq::empty()
                        }).push(e) + rest,
                    ),
                    None => None,
                }
            } else {
                None
            },
            Scan::NotFound => Some(seq![Expr::Text(s.subrange(lo, hi))]),
            Scan::Abort => None,
        }
    }
}


/// `TODO`, `DOING`, `NOW`, `LATER` or `DONE` at the start of the window.
pub open spec fn logseq_todo_spec(s: Seq<char>, lo: int, hi: int) -> Option<(int, Expr)> {
    if starts_at(s, lo, hi, seq!['T', 'O', 'D', 'O']) {
        Some((lo + 4, Expr::Todo { done: false }))
    } else if starts_at(s, lo, hi, seq!['D', 'O', 'I', 'N', 'G']) {
        Some((lo + 5, Expr::Todo { done: false }))
    } else if starts_at(s, lo, hi, seq!['N', 'O', 'W']) {
        Some((lo + 3, Expr::Todo { done: false }))
    } else if starts_at(s, lo, hi, seq!['L', 'A', 'T', 'E', 'R']) {
        Some((lo + 5, Expr::Todo { done: false }))
    } else if starts_at(s, lo, hi, seq!['D', 'O', 'N', 'E']) {
        Some((lo + 4, Expr::Todo { done: true }))
    } else {
        None
    }
}

/// The expressions of a block's text, the alternatives tried in order: a horizontal rule, a
/// block quote, a whole-block Roam attribute, a Logseq task marker followed by text, and plain
/// inline text. `None` when the grammar cannot be carried out on the text.
pub open spec fn parse_spec(cs: ContentStyle, s: Seq<char>) -> Option<Seq<Expr>> {
    let hi = s.len() as int;
    if s.len() == 3 && starts_at(s, 0, 3, seq!['-', '-', '-']) {
        Some(seq![Expr::HRule])
    } else if starts_at(s, 0, hi, seq!['>', ' ']) {
        match parse_inline_spec(cs, true, s, 2, hi) {
            Some(v) => Some(seq![Expr::BlockQuote(v)]),
            None => None,
        }
    } else {
        parse_body_spec(cs, s)
    }
}

/// A block's text that is neither a rule nor a quote.
pub open spec fn parse_body_spec(cs: ContentStyle, s: Seq<char>) -> Option<Seq<Expr>> {
    let hi = s.len() as int;
    {
        let roam_attr = if cs == ContentStyle::Roam {
            attribute_spec(cs, s, 0, hi)
        } else {
            PRes::NoMatch
        };
        match roam_attr {
            PRes::Match(_, (name, value)) => Some(seq![Expr::Attribute { name, value }]),
            PRes::Abort => None,
            PRes::NoMatch => {
                let todo = if cs == ContentStyle::Logseq {
                    logseq_todo_spec(s, 0, hi)
                } else {
                    None
                };
                match todo {
                    Some((p, e)) => match parse_inline_spec(cs, true, s, p, hi) {
                        Some(v) => Some(seq![e] + v),
                        None => None,
                    },
                    None => parse_inline_spec(cs, true, s, 0, hi),
                }
            },
        }
    }
}


proof fn lemma_style_def(cs: ContentStyle, s: Seq<char>, lo: int, hi: int, b: Seq<char>)
    ensures
        style_spec(cs, s, lo, hi, b) == ({
    match fenced(s, lo, hi, b, b) {
        Some((j, n)) => if b.len() > 0 && lo + b.len() <= j && n <= hi {
            match parse_inline_spec(cs, false, s, lo + b.len(), j) {
                Some(v) => PRes::Match(n, v),
                None => PRes::Abort,
            }
        } else {
            PRes::NoMatch
        },
        None => PRes::NoMatch,
    }
        }),
{
    reveal(parse_inline_spec);
}

proof fn lemma_late_def(cs: ContentStyle, s: Seq<char>, lo: int, hi: int)
    ensures
        late_spec(cs, s, lo, hi) == ({
    late_directive_spec(
        s,
        lo,
        hi,
        style_spec(cs, s, lo, hi, seq!['~', '~']),
        style_spec(cs, s, lo, hi, seq!['^', '^']),
    )
        }),
{
    reveal(parse_inline_spec);
}

proof fn lemma_attribute_def(cs: ContentStyle, s: Seq<char>, lo: int, hi: int)
    ensures
        attribute_spec(cs, s, lo, hi) == ({
    let (a, e, sep) = match cs {
        ContentStyle::Roam => (lo, span(s, lo, hi, CharClass::NotColonOrBacktick), seq![':', ':']),
        ContentStyle::Logseq => {
            let a = span(s, lo, hi, CharClass::Multispace);
            (a, span(s, a, hi, CharClass::AttrName), seq![':', ':', ' '])
        },
    };
    if e > a && starts_at(s, e, hi, sep) {
        let q = span(s, e + sep.len(), hi, CharClass::Multispace);
        if lo < q <= hi {
            match parse_inline_spec(cs, false, s, q, hi) {
                Some(v) => PRes::Match(hi, (s.subrange(a, e), v)),
                None => PRes::Abort,
            }
        } else {
            PRes::NoMatch
        }
    } else {
        PRes::NoMatch
    }
        }),
{
    reveal(parse_inline_spec);
}

proof fn lemma_directive_def(cs: ContentStyle, allow_attr: bool, s: Seq<char>, lo: int, hi: int)
    ensures
        directive_spec(cs, allow_attr, s, lo, hi) == ({
    match simple_directive_spec(cs, s, lo, hi) {
        PRes::Match(n, e) => PRes::Match(n, e),
        PRes::Abort => PRes::Abort,
        PRes::NoMatch => styled_directive_spec(cs, allow_attr, s, lo, hi),
    }
        }),
{
    reveal(parse_inline_spec);
}

proof fn lemma_styled_directive_def(cs: ContentStyle, allow_attr: bool, s: Seq<char>, lo: int, hi: int)
    ensures
        styled_directive_spec(cs, allow_attr, s, lo, hi) == ({
    match emphasis_of(
        cs,
        style_spec(cs, s, lo, hi, seq!['*', '*']),
        style_spec(cs, s, lo, hi, seq!['_', '_']),
        style_spec(cs, s, lo, hi, seq!['_']),
        style_spec(cs, s, lo, hi, seq!['*']),
    ) {
        PRes::Match(n, (bold, v)) => PRes::Match(n, if bold { Expr::Bold(v) } else { Expr::Italic(v) }),
        PRes::Abort => PRes::Abort,
        PRes::NoMatch => late_or_attribute_spec(cs, allow_attr, s, lo, hi),
    }
        }),
{
    reveal(parse_inline_spec);
}

proof fn lemma_late_or_attribute_def(cs: ContentStyle, allow_attr: bool, s: Seq<char>, lo: int, hi: int)
    ensures
        late_or_attribute_spec(cs, allow_attr, s, lo, hi) == ({
    match late_spec(cs, s, lo, hi) {
        PRes::Match(n, e) => PRes::Match(n, e),
        PRes::Abort => PRes::Abort,
        PRes::NoMatch => if allow_attr {
            match attribute_spec(cs, s, lo, hi) {
                PRes::Match(n, (name, value)) => PRes::Match(n, Expr::Attribute { name, value }),
                PRes::Abort => PRes::Abort,
                PRes::NoMatch => PRes::NoMatch,
            }
        } else {
            PRes::NoMatch
        },
    }
        }),
{
    reveal(parse_inline_spec);
}

proof fn lemma_scan_def(cs: ContentStyle, allow_attr: bool, s: Seq<char>, k: int, hi: int)
    ensures
        scan_spec(cs, allow_attr, s, k, hi) == ({
    if k < 0 || k >= hi {
        Scan::NotFound
    } else {
        match directive_spec(cs, allow_attr, s, k, hi) {
            PRes::Match(n, e) => Scan::Found(k, n, e),
            PRes::Abort => Scan::Abort,
            PRes::NoMatch => scan_spec(cs, allow_attr, s, k + 1, hi),
        }
    }
        }),
{
    reveal(parse_inline_spec);
}

proof fn lemma_parse_inline_def(cs: ContentStyle, allow_attr: bool, s: Seq<char>, lo: int, hi: int)
    ensures
        parse_inline_spec(cs, allow_attr, s, lo, hi) == ({
    if lo < 0 || lo >= hi {
        Some(Seq::empty())
    } else {
        match scan_spec(cs, allow_attr, s, lo, hi) {
            Scan::Found(k, n, e) => if lo <= k < n <= hi {
                match parse_inline_spec(cs, allow_attr, s, n, hi) {
                    Some(rest) => Some(
                        (if k > lo {
                            seq![Expr::Text(s.subrange(lo, k))]
                        } else {
                            Seq::empty()
                        }).push(e) + rest,
                    ),
                    None => None,
                }
            } else {
                None
            },
            Scan::NotFound => Some(seq![Expr::Text(s.subrange(lo, hi))]),
            Scan::Abort => None,
        }
    }
        }),
{
    reveal(parse_inline_spec);
}

/// Exec result of a grammar rule: where it stopped and what it produced, no match, or abort.
pub enum Res<T> {
    Match(usize, T),
    NoMatch,
    Abort,
}

pub open spec fn res_expr(r: Res<Expression>, p: PRes<Expr>) -> bool {
    match (r, p) {
        (Res::Match(n, e), PRes::Match(m, x)) => n == m && expr_model(e) == x,
        (Res::NoMatch, PRes::NoMatch) => true,
        (Res::Abort, PRes::Abort) => true,
        _ => false,
    }
}

pub open spec fn res_exprs(r: Res<Vec<Expression>>, p: PRes<Seq<Expr>>) -> bool {
    match (r, p) {
        (Res::Match(n, e), PRes::Match(m, x)) => n == m && exprs_model(e@) == x,
        (Res::NoMatch, PRes::NoMatch) => true,
        (Res::Abort, PRes::Abort) => true,
        _ => false,
    }
}

pub open spec fn res_emph(r: Res<(bool, Vec<Expression>)>, p: PRes<(bool, Seq<Expr>)>) -> bool {
    match (r, p) {
        (Res::Match(n, (b, e)), PRes::Match(m, (c, x))) => n == m && b == c && exprs_model(e@)
            == x,
        (Res::NoMatch, PRes::NoMatch) => true,
        (Res::Abort, PRes::Abort) => true,
        _ => false,
    }
}

pub open spec fn res_attr(r: Res<(String, Vec<Expression>)>, p: PRes<(Seq<char>, Seq<Expr>)>) -> bool {
    match (r, p) {
        (Res::Match(n, (a, e)), PRes::Match(m, (b, x))) => n == m && a@ == b && exprs_model(e@)
            == x,
        (Res::NoMatch, PRes::NoMatch) => true,
        (Res::Abort, PRes::Abort) => true,
        _ => false,
    }
}

pub open spec fn res_pos3(r: Res<(usize, usize, usize)>, p: PRes<(int, int, int)>) -> bool {
    match (r, p) {
        (Res::Match(n, (a, b, c)), PRes::Match(m, (x, y, z))) => n == m && a == x && b == y && c
            == z,
        (Res::NoMatch, PRes::NoMatch) => true,
        (Res::Abort, PRes::Abort) => true,
        _ => false,
    }
}

/// The match, if any, ends inside the window and after its start.
pub open spec fn res_within<T>(r: Res<T>, lo: int, hi: int) -> bool {
    r matches Res::Match(n, _) ==> lo < n <= hi
}

proof fn lemma_model_nested(v: Vec<Expression>)
    ensures
        expr_model(Expression::Bold(v)) == Expr::Bold(exprs_model(v@)),
        expr_model(Expression::Italic(v)) == Expr::Italic(exprs_model(v@)),
        expr_model(Expression::Strike(v)) == Expr::Strike(exprs_model(v@)),
        expr_model(Expression::Highlight(v)) == Expr::Highlight(exprs_model(v@)),
        expr_model(Expression::BlockQuote(v)) == Expr::BlockQuote(exprs_model(v@)),
{
    reveal(expr_model);
}

proof fn lemma_model_flat(x: String, y: String, d: bool)
    ensures
        expr_model(Expression::Text(x)) == Expr::Text(x@),
        expr_model(Expression::RawHtml(x)) == Expr::RawHtml(x@),
        expr_model(Expression::RawHyperlink(x)) == Expr::RawHyperlink(x@),
        expr_model(Expression::Image { alt: x, url: y }) == (Expr::Image { alt: x@, url: y@ }),
        expr_model(Expression::Video { url: x }) == (Expr::Video { url: x@ }),
        expr_model(Expression::BraceDirective(x)) == Expr::BraceDirective(x@),
        expr_model(Expression::Table) == Expr::Table,
        expr_model(Expression::Todo { done: d }) == (Expr::Todo { done: d }),
        expr_model(Expression::PageEmbed(x)) == Expr::PageEmbed(x@),
        expr_model(Expression::BlockEmbed(x)) == Expr::BlockEmbed(x@),
        expr_model(Expression::TripleBacktick(x)) == Expr::TripleBacktick(x@),
        expr_model(Expression::SingleBacktick(x)) == Expr::SingleBacktick(x@),
        expr_model(Expression::Hashtag(x, d)) == Expr::Hashtag(x@, d),
        expr_model(Expression::Link(x)) == Expr::Link(x@),
        expr_model(Expression::MarkdownInternalLink { label: x, page: y }) == (
        Expr::MarkdownInternalLink { label: x@, page: y@ }),
        expr_model(Expression::MarkdownExternalLink { title: x, url: y }) == (
        Expr::MarkdownExternalLink { title: x@, url: y@ }),
        expr_model(Expression::BlockRef(x)) == Expr::BlockRef(x@),
        expr_model(Expression::Latex(x)) == Expr::Latex(x@),
        expr_model(Expression::HRule) == Expr::HRule,
{
    reveal(expr_model);
}

proof fn lemma_model_unit(d: bool)
    ensures
        expr_model(Expression::Table) == Expr::Table,
        expr_model(Expression::Todo { done: d }) == (Expr::Todo { done: d }),
        expr_model(Expression::HRule) == Expr::HRule,
{
    reveal(expr_model);
}

proof fn lemma_model_attribute(v: Vec<Expression>, name: String)
    ensures
        expr_model(Expression::Attribute { name, value: v }) == (Expr::Attribute {
            name: name@,
            value: exprs_model(v@),
        }),
{
    reveal(expr_model);
}

/// The model of each kind of expression.
pub proof fn lemma_expr_model_of(e: Expression)
    ensures
        match e {
            Expression::Text(s) => expr_model(e) == Expr::Text(s@),
            Expression::RawHtml(s) => expr_model(e) == Expr::RawHtml(s@),
            Expression::RawHyperlink(s) => expr_model(e) == Expr::RawHyperlink(s@),
            Expression::Image { alt, url } => expr_model(e) == (Expr::Image { alt: alt@, url: url@ }),
            Expression::Video { url } => expr_model(e) == (Expr::Video { url: url@ }),
            Expression::BraceDirective(s) => expr_model(e) == Expr::BraceDirective(s@),
            Expression::Table => expr_model(e) == Expr::Table,
            Expression::Todo { done } => expr_model(e) == (Expr::Todo { done }),
            Expression::PageEmbed(s) => expr_model(e) == Expr::PageEmbed(s@),
            Expression::BlockEmbed(s) => expr_model(e) == Expr::BlockEmbed(s@),
            Expression::TripleBacktick(s) => expr_model(e) == Expr::TripleBacktick(s@),
            Expression::SingleBacktick(s) => expr_model(e) == Expr::SingleBacktick(s@),
            Expression::Hashtag(s, d) => expr_model(e) == Expr::Hashtag(s@, d),
            Expression::Link(s) => expr_model(e) == Expr::Link(s@),
            Expression::MarkdownInternalLink { label, page } => expr_model(e) == (Expr::MarkdownInternalLink { label: label@, page: page@ }),
            Expression::MarkdownExternalLink { title, url } => expr_model(e) == (Expr::MarkdownExternalLink { title: title@, url: url@ }),
            Expression::BlockRef(s) => expr_model(e) == Expr::BlockRef(s@),
            Expression::Attribute { name, value } => expr_model(e) == (Expr::Attribute { name: name@, value: exprs_model(value@) }),
            Expression::Bold(v) => expr_model(e) == Expr::Bold(exprs_model(v@)),
            Expression::Italic(v) => expr_model(e) == Expr::Italic(exprs_model(v@)),
            Expression::Strike(v) => expr_model(e) == Expr::Strike(exprs_model(v@)),
            Expression::Highlight(v) => expr_model(e) == Expr::Highlight(exprs_model(v@)),
            Expression::Latex(s) => expr_model(e) == Expr::Latex(s@),
            Expression::BlockQuote(v) => expr_model(e) == Expr::BlockQuote(exprs_model(v@)),
            Expression::HRule => expr_model(e) == Expr::HRule,
        },
{
    reveal(expr_model);
}

/// The model of a sequence lists the models of its elements.
pub proof fn lemma_exprs_model_index(s: Seq<Expression>, i: int)
    requires
        0 <= i < s.len(),
    ensures
        exprs_model(s).len() == s.len(),
        exprs_model(s)[i] == expr_model(s[i]),
    decreases s.len(),
{
    lemma_exprs_model_len(s);
    reveal(expr_model);
    if i < s.len() - 1 {
        lemma_exprs_model_index(s.subrange(0, s.len() - 1), i);
        assert(s.subrange(0, s.len() - 1)[i] == s[i]);
    }
}

/// Only a hashtag models a hashtag, and it keeps its text and dot.
pub proof fn lemma_model_hashtag(e: Expression)
    ensures
        (expr_model(e) is Hashtag) <==> (e is Hashtag),
        e matches Expression::Hashtag(t, d) ==> expr_model(e) == Expr::Hashtag(t@, d),
{
    reveal(expr_model);
}

proof fn lemma_exprs_model_push(s: Seq<Expression>, e: Expression)
    ensures
        exprs_model(s.push(e)) == exprs_model(s).push(expr_model(e)),
{
    reveal(expr_model);
    assert(s.push(e).subrange(0, s.len() as int) =~= s);
}

pub proof fn lemma_exprs_model_len(s: Seq<Expression>)
    ensures
        exprs_model(s).len() == s.len(),
    decreases s.len(),
{
    reveal(expr_model);
    if s.len() > 0 {
        lemma_exprs_model_len(s.subrange(0, s.len() - 1));
    }
}

fn fenced_exec(v: &Vec<char>, lo: usize, hi: usize, a: &[char], b: &[char]) -> (r: Option<(usize, usize)>)
    requires
        lo <= hi <= v@.len(),
    ensures
        match r {
            Some((j, n)) => fenced(v@, lo as int, hi as int, a@, b@) == Some((j as int, n as int))
                && lo + a@.len() <= j && n == j + b@.len() && n <= hi,
            None => fenced(v@, lo as int, hi as int, a@, b@) is None,
        },
{
    if !starts_with_at(v, lo, hi, a) {
        return None;
    }
    match find(v, lo + a.len(), hi, b) {
        Some(j) => {
            proof {
                lemma_find_from_bounds(v@, lo + a@.len(), hi as int, b@);
            }
            Some((j, j + b.len()))
        },
        None => None,
    }
}

pub(crate) fn link_or_word_exec(v: &Vec<char>, lo: usize, hi: usize) -> (r: Option<(usize, usize, usize)>)
    requires
        lo <= hi <= v@.len(),
    ensures
        match r {
            Some((c0, c1, n)) => link_or_word_spec(v@, lo as int, hi as int) == Some(
                (c0 as int, c1 as int, n as int),
            ) && lo <= c0 <= c1 <= n <= hi && lo < n,
            None => link_or_word_spec(v@, lo as int, hi as int) is None,
        },
{
    let open: [char; 2] = ['[', '['];
    let close: [char; 2] = [']', ']'];
    assert(open@ == lit_link_open());
    assert(close@ == lit_link_close());
    match fenced_exec(v, lo, hi, &open, &close) {
        Some((j, n)) => Some((lo + 2, j, n)),
        None => {
            let e = span_of(v, lo, hi, CharClass::Word);
            if e > lo {
                Some((lo, e, e))
            } else {
                None
            }
        },
    }
}

pub(crate) fn hashtag_exec(v: &Vec<char>, lo: usize, hi: usize) -> (r: Option<(usize, usize, usize, bool)>)
    requires
        lo <= hi <= v@.len(),
    ensures
        match r {
            Some((c0, c1, n, d)) => hashtag_spec(v@, lo as int, hi as int) == Some(
                (c0 as int, c1 as int, n as int, d),
            ) && lo <= c0 <= c1 <= n <= hi && lo < n,
            None => hashtag_spec(v@, lo as int, hi as int) is None,
        },
{
    if lo < hi && v[lo] == '#' {
        let dot_lit: [char; 1] = ['.'];
        assert(dot_lit@ == seq!['.']);
        let dot = starts_with_at(v, lo + 1, hi, &dot_lit);
        let p = if dot {
            lo + 2
        } else {
            lo + 1
        };
        match link_or_word_exec(v, p, hi) {
            Some((c0, c1, n)) => Some((c0, c1, n, dot)),
            None => None,
        }
    } else {
        None
    }
}

fn single_backtick_exec(v: &Vec<char>, lo: usize, hi: usize) -> (r: Option<(usize, usize, usize)>)
    requires
        lo <= hi <= v@.len(),
    ensures
        match r {
            Some((c0, c1, n)) => single_backtick_spec(v@, lo as int, hi as int) == Some(
                (c0 as int, c1 as int, n as int),
            ) && lo < c0 <= c1 < n <= hi,
            None => single_backtick_spec(v@, lo as int, hi as int) is None,
        },
{
    if lo < hi && v[lo] == '`' {
        let e = span_of(v, lo + 1, hi, CharClass::NotBacktick);
        if e > lo + 1 && e < hi && v[e] == '`' {
            Some((lo + 1, e, e + 1))
        } else {
            None
        }
    } else {
        None
    }
}

enum UnbalancedExec {
    Found(usize),
    NotFound,
    Abort,
}

fn unbalanced_exec(v: &Vec<char>, start: usize, hi: usize) -> (r: UnbalancedExec)
    requires
        start <= hi <= v@.len(),
    ensures
        match (r, unbalanced_spec(v@, start as int, hi as int, 0)) {
            (UnbalancedExec::Found(j), Unbalanced::Found(k)) => j == k && start <= j < hi,
            (UnbalancedExec::NotFound, Unbalanced::NotFound) => true,
            (UnbalancedExec::Abort, Unbalanced::Abort) => true,
            _ => false,
        },
{
    let mut i = start;
    let mut depth: usize = 0;
    while i < hi
        invariant
            start <= i <= hi + 1,
            hi <= v@.len(),
            depth <= i,
            unbalanced_spec(v@, start as int, hi as int, 0) == unbalanced_spec(
                v@,
                i as int,
                hi as int,
                depth as int,
            ),
        decreases hi + 1 - i,
    {
        let c = v[i];
        if c == '\\' {
            if i + 1 < hi {
                i = i + 2;
            } else {
                return UnbalancedExec::Abort;
            }
        } else if c == '(' {
            depth = depth + 1;
            i = i + 1;
        } else if c == ')' {
            if depth == 0 {
                return UnbalancedExec::Found(i);
            }
            depth = depth - 1;
            i = i + 1;
        } else {
            i = i + 1;
        }
    }
    UnbalancedExec::NotFound
}

fn markdown_link_exec(v: &Vec<char>, lo: usize, hi: usize) -> (r: Res<(usize, usize, usize)>)
    requires
        lo <= hi <= v@.len(),
    ensures
        res_pos3(r, markdown_link_spec(v@, lo as int, hi as int)),
        res_within(r, lo as int, hi as int),
        r matches Res::Match(n, (te, u0, u1)) ==> lo + 1 <= te < u0 <= u1 < n,
{
    let open: [char; 1] = ['['];
    let close: [char; 1] = [']'];
    assert(open@ == seq!['[']);
    assert(close@ == seq![']']);
    match fenced_exec(v, lo, hi, &open, &close) {
        None => Res::NoMatch,
        Some((te, p)) => if p < hi && v[p] == '(' {
            match unbalanced_exec(v, p + 1, hi) {
                UnbalancedExec::Found(j) => Res::Match(j + 1, (te, p + 1, j)),
                UnbalancedExec::NotFound => Res::NoMatch,
                UnbalancedExec::Abort => Res::Abort,
            }
        } else {
            Res::NoMatch
        },
    }
}

fn fixed_word_exec(v: &Vec<char>, lo: usize, hi: usize, w: &[char]) -> (r: Option<usize>)
    requires
        lo <= hi <= v@.len(),
        w@.len() > 0,
    ensures
        match r {
            Some(n) => fixed_word_spec(v@, lo as int, hi as int, w@) == Some(n as int) && lo < n
                <= hi,
            None => fixed_word_spec(v@, lo as int, hi as int, w@) is None,
        },
{
    let open: [char; 2] = ['[', '['];
    let close: [char; 2] = [']', ']'];
    assert(open@ == lit_link_open());
    assert(close@ == lit_link_close());
    if starts_with_at(v, lo, hi, w) {
        Some(lo + w.len())
    } else if starts_with_at(v, lo, hi, &open) && starts_with_at(v, lo + 2, hi, w)
        && starts_with_at(v, lo + 2 + w.len(), hi, &close) {
        Some(lo + w.len() + 4)
    } else {
        None
    }
}


fn brace_contents_exec(cs: ContentStyle, v: &Vec<char>, lo: usize, hi: usize) -> (r: Res<Expression>)
    requires
        lo <= hi <= v@.len(),
    ensures
        res_expr(r, brace_contents_spec(cs, v@, lo as int, hi as int)),
        res_within(r, lo as int, hi as int),
{
    reveal(expr_model);
    let todo_w: [char; 4] = ['T', 'O', 'D', 'O'];
    let doing_w: [char; 5] = ['D', 'O', 'I', 'N', 'G'];
    let done_w: [char; 4] = ['D', 'O', 'N', 'E'];
    let table_w: [char; 5] = ['t', 'a', 'b', 'l', 'e'];
    let video_w: [char; 5] = ['v', 'i', 'd', 'e', 'o'];
    let embed_w: [char; 5] = ['e', 'm', 'b', 'e', 'd'];
    let colon: [char; 1] = [':'];
    let ref_open: [char; 2] = ['(', '('];
    let ref_close: [char; 2] = [')', ')'];
    let open: [char; 2] = ['[', '['];
    let close: [char; 2] = [']', ']'];
    assert(todo_w@ == seq!['T', 'O', 'D', 'O']);
    assert(doing_w@ == seq!['D', 'O', 'I', 'N', 'G']);
    assert(done_w@ == seq!['D', 'O', 'N', 'E']);
    assert(table_w@ == seq!['t', 'a', 'b', 'l', 'e']);
    assert(video_w@ == seq!['v', 'i', 'd', 'e', 'o']);
    assert(embed_w@ == seq!['e', 'm', 'b', 'e', 'd']);
    assert(colon@ == seq![':']);
    assert(ref_open@ == seq!['(', '(']);
    assert(ref_close@ == seq![')', ')']);
    assert(open@ == lit_link_open());
    assert(close@ == lit_link_close());
    if cs == ContentStyle::Roam {
        if let Some(n) = fixed_word_exec(v, lo, hi, &todo_w) {
            return Res::Match(n, Expression::Todo { done: false });
        }
        if let Some(n) = fixed_word_exec(v, lo, hi, &doing_w) {
            return Res::Match(n, Expression::Todo { done: false });
        }
        if let Some(n) = fixed_word_exec(v, lo, hi, &done_w) {
            return Res::Match(n, Expression::Todo { done: true });
        }
    }
    if let Some(n) = fixed_word_exec(v, lo, hi, &table_w) {
        return Res::Match(n, Expression::Table);
    }
    if let Some(p) = fixed_word_exec(v, lo, hi, &video_w) {
        let m = span_of(v, p, hi, CharClass::Multispace);
        if m > p {
            match raw_url(v, m, hi) {
                UrlFound::Found(n) => {
                    return Res::Match(m + n, Expression::Video { url: string_of(v, m, m + n) });
                },
                UrlFound::NoUrl => {},
                UrlFound::Abort => {
                    return Res::Abort;
                },
            }
        }
    }
    if let Some(p) = fixed_word_exec(v, lo, hi, &embed_w) {
        let sep = if cs == ContentStyle::Roam {
            if starts_with_at(v, p, hi, &colon) {
                Some(span_of(v, p + 1, hi, CharClass::Multispace))
            } else {
                None
            }
        } else {
            let m = span_of(v, p, hi, CharClass::Multispace);
            if m > p {
                Some(m)
            } else {
                None
            }
        };
        if let Some(q) = sep {
            if let Some((j, n)) = fenced_exec(v, q, hi, &ref_open, &ref_close) {
                return Res::Match(n, Expression::BlockEmbed(string_of(v, q + 2, j)));
            }
            if let Some((j, n)) = fenced_exec(v, q, hi, &open, &close) {
                return Res::Match(n, Expression::PageEmbed(string_of(v, q + 2, j)));
            }
        }
    }
    match link_or_word_exec(v, lo, hi) {
        Some((c0, c1, n)) => Res::Match(n, Expression::BraceDirective(string_of(v, c0, c1))),
        None => Res::NoMatch,
    }
}

fn brace_directive_exec(cs: ContentStyle, v: &Vec<char>, lo: usize, hi: usize) -> (r: Res<Expression>)
    requires
        lo <= hi <= v@.len(),
    ensures
        res_expr(r, brace_directive_spec(cs, v@, lo as int, hi as int)),
        res_within(r, lo as int, hi as int),
{
    reveal(expr_model);
    let open: [char; 2] = ['{', '{'];
    let close: [char; 2] = ['}', '}'];
    assert(open@ == seq!['{', '{']);
    assert(close@ == seq!['}', '}']);
    if !starts_with_at(v, lo, hi, &open) {
        return Res::NoMatch;
    }
    match find(v, lo + 2, hi, &close) {
        Some(j) => {
            proof {
                lemma_find_from_bounds(v@, lo + 2, hi as int, close@);
            }
            let a = span_of(v, lo + 2, j, CharClass::Whitespace);
            let b = rspan_whitespace(v, a, j);
            match brace_contents_exec(cs, v, a, b) {
                Res::Match(n, e) => if n == b {
                    Res::Match(j + 2, e)
                } else {
                    Res::Match(j + 2, Expression::BraceDirective(string_of(v, a, b)))
                },
                Res::NoMatch => Res::Match(j + 2, Expression::BraceDirective(string_of(v, a, b))),
                Res::Abort => Res::Abort,
            }
        },
        None => Res::NoMatch,
    }
}

fn links_exec(v: &Vec<char>, lo: usize, hi: usize) -> (r: Res<Expression>)
    requires
        lo <= hi <= v@.len(),
    ensures
        res_expr(r, links_spec(v@, lo as int, hi as int)),
        res_within(r, lo as int, hi as int),
{
    reveal(expr_model);
    let image = if lo < hi && v[lo] == '!' {
        markdown_link_exec(v, lo + 1, hi)
    } else {
        Res::NoMatch
    };
    match image {
        Res::Match(n, (te, u0, u1)) => {
            return Res::Match(
                n,
                Expression::Image { alt: string_of(v, lo + 2, te), url: string_of(v, u0, u1) },
            );
        },
        Res::Abort => {
            return Res::Abort;
        },
        Res::NoMatch => {},
    }
    let html_open: [char; 8] = ['@', '@', 'h', 't', 'm', 'l', ':', ' '];
    let html_close: [char; 2] = ['@', '@'];
    assert(html_open@ == seq!['@', '@', 'h', 't', 'm', 'l', ':', ' ']);
    assert(html_close@ == seq!['@', '@']);
    if let Some((j, n)) = fenced_exec(v, lo, hi, &html_open, &html_close) {
        return Res::Match(n, Expression::RawHtml(string_of(v, lo + 8, j)));
    }
    match markdown_link_exec(v, lo, hi) {
        Res::Match(n, (te, u0, u1)) => Res::Match(n, markdown_link_exec_expr(v, lo + 1, te, u0, u1)),
        Res::Abort => Res::Abort,
        Res::NoMatch => Res::NoMatch,
    }
}

fn markdown_link_exec_expr(v: &Vec<char>, t0: usize, t1: usize, u0: usize, u1: usize) -> (r: Expression)
    requires
        t0 <= t1 <= u0 <= u1 <= v@.len(),
    ensures
        expr_model(r) == markdown_link_expr(v@, t0 as int, t1 as int, u0 as int, u1 as int),
{
    reveal(expr_model);
    let open: [char; 2] = ['[', '['];
    let close: [char; 2] = [']', ']'];
    assert(open@ == lit_link_open());
    assert(close@ == lit_link_close());
    match fenced_exec(v, u0, u1, &open, &close) {
        Some((j, n)) => if n == u1 {
            Expression::MarkdownInternalLink {
                label: string_of(v, t0, t1),
                page: string_of(v, u0 + 2, j),
            }
        } else {
            Expression::MarkdownExternalLink { title: string_of(v, t0, t1), url: string_of(v, u0, u1) }
        },
        None => Expression::MarkdownExternalLink {
            title: string_of(v, t0, t1),
            url: string_of(v, u0, u1),
        },
    }
}

fn simple_directive_exec(cs: ContentStyle, v: &Vec<char>, lo: usize, hi: usize) -> (r: Res<Expression>)
    requires
        lo <= hi <= v@.len(),
    ensures
        res_expr(r, simple_directive_spec(cs, v@, lo as int, hi as int)),
        res_within(r, lo as int, hi as int),
{
    reveal(expr_model);
    let ticks: [char; 3] = ['`', '`', '`'];
    let open: [char; 2] = ['[', '['];
    let close: [char; 2] = [']', ']'];
    let ref_open: [char; 2] = ['(', '('];
    let ref_close: [char; 2] = [')', ')'];
    assert(ticks@ == seq!['`', '`', '`']);
    assert(open@ == lit_link_open());
    assert(close@ == lit_link_close());
    assert(ref_open@ == seq!['(', '(']);
    assert(ref_close@ == seq![')', ')']);
    if let Some((j, n)) = fenced_exec(v, lo, hi, &ticks, &ticks) {
        return Res::Match(n, Expression::TripleBacktick(string_of(v, lo + 3, j)));
    }
    if let Some((c0, c1, n)) = single_backtick_exec(v, lo, hi) {
        return Res::Match(n, Expression::SingleBacktick(string_of(v, c0, c1)));
    }
    match brace_directive_exec(cs, v, lo, hi) {
        Res::Match(n, e) => {
            return Res::Match(n, e);
        },
        Res::Abort => {
            return Res::Abort;
        },
        Res::NoMatch => {},
    }
    if let Some((c0, c1, n, dot)) = hashtag_exec(v, lo, hi) {
        return Res::Match(n, Expression::Hashtag(string_of(v, c0, c1), dot));
    }
    if let Some((j, n)) = fenced_exec(v, lo, hi, &open, &close) {
        return Res::Match(n, Expression::Link(string_of(v, lo + 2, j)));
    }
    if let Some((j, n)) = fenced_exec(v, lo, hi, &ref_open, &ref_close) {
        return Res::Match(n, Expression::BlockRef(string_of(v, lo + 2, j)));
    }
    links_exec(v, lo, hi)
}


fn style_exec(cs: ContentStyle, v: &Vec<char>, lo: usize, hi: usize, b: &[char]) -> (r: Res<Vec<Expression>>)
    requires
        lo <= hi <= v@.len(),
    ensures
        res_exprs(r, style_spec(cs, v@, lo as int, hi as int, b@)),
        res_within(r, lo as int, hi as int),
    decreases hi - lo, 1int,
{
    proof {
        lemma_style_def(cs, v@, lo as int, hi as int, b@);
    }
    match fenced_exec(v, lo, hi, b, b) {
        Some((j, n)) => if b.len() > 0 {
            match parse_inline_exec(cs, false, v, lo + b.len(), j) {
                Some(out) => Res::Match(n, out),
                None => Res::Abort,
            }
        } else {
            Res::NoMatch
        },
        None => Res::NoMatch,
    }
}

fn emphasis_exec(cs: ContentStyle, v: &Vec<char>, lo: usize, hi: usize) -> (r: Res<(bool, Vec<Expression>)>)
    requires
        lo <= hi <= v@.len(),
    ensures
        res_emph(r, emphasis_spec(cs, v@, lo as int, hi as int)),
        res_within(r, lo as int, hi as int),
    decreases hi - lo, 2int,
{
    let star2: [char; 2] = ['*', '*'];
    let under2: [char; 2] = ['_', '_'];
    let star1: [char; 1] = ['*'];
    let under1: [char; 1] = ['_'];
    assert(star2@ == seq!['*', '*']);
    assert(under2@ == seq!['_', '_']);
    assert(star1@ == seq!['*']);
    assert(under1@ == seq!['_']);
    match style_exec(cs, v, lo, hi, &star2) {
        Res::Match(n, out) => {
            return Res::Match(n, (true, out));
        },
        Res::Abort => {
            return Res::Abort;
        },
        Res::NoMatch => {},
    }
    let under_bold = cs == ContentStyle::Logseq;
    match style_exec(cs, v, lo, hi, &under2) {
        Res::Match(n, out) => {
            return Res::Match(n, (under_bold, out));
        },
        Res::Abort => {
            return Res::Abort;
        },
        Res::NoMatch => {},
    }
    if cs == ContentStyle::Roam {
        return Res::NoMatch;
    }
    match style_exec(cs, v, lo, hi, &under1) {
        Res::Match(n, out) => {
            return Res::Match(n, (false, out));
        },
        Res::Abort => {
            return Res::Abort;
        },
        Res::NoMatch => {},
    }
    match style_exec(cs, v, lo, hi, &star1) {
        Res::Match(n, out) => Res::Match(n, (false, out)),
        Res::Abort => Res::Abort,
        Res::NoMatch => Res::NoMatch,
    }
}

#[verifier::spinoff_prover]
#[verifier::rlimit(40)]
fn late_directive_exec(cs: ContentStyle, v: &Vec<char>, lo: usize, hi: usize) -> (r: Res<Expression>)
    requires
        lo <= hi <= v@.len(),
    ensures
        res_expr(r, late_spec(cs, v@, lo as int, hi as int)),
        res_within(r, lo as int, hi as int),
    decreases hi - lo, 2int,
{
    proof {
        lemma_late_def(cs, v@, lo as int, hi as int);
    }
    let tilde: [char; 2] = ['~', '~'];
    let caret: [char; 2] = ['^', '^'];
    let dollar: [char; 2] = ['$', '$'];
    assert(tilde@ == seq!['~', '~']);
    assert(caret@ == seq!['^', '^']);
    assert(dollar@ == seq!['$', '$']);
    match style_exec(cs, v, lo, hi, &tilde) {
        Res::Match(n, out) => {
            proof {
                lemma_model_nested(out);
            }
            return Res::Match(n, Expression::Strike(out));
        },
        Res::Abort => {
            return Res::Abort;
        },
        Res::NoMatch => {},
    }
    match style_exec(cs, v, lo, hi, &caret) {
        Res::Match(n, out) => {
            proof {
                lemma_model_nested(out);
            }
            return Res::Match(n, Expression::Highlight(out));
        },
        Res::Abort => {
            return Res::Abort;
        },
        Res::NoMatch => {},
    }
    if let Some((j, n)) = fenced_exec(v, lo, hi, &dollar, &dollar) {
        let t = string_of(v, lo + 2, j);
        proof {
            lemma_model_flat(t, t, false);
        }
        return Res::Match(n, Expression::Latex(t));
    }
    match raw_url(v, lo, hi) {
        UrlFound::Found(n) => {
            let t = string_of(v, lo, lo + n);
            proof {
                lemma_model_flat(t, t, false);
            }
            Res::Match(lo + n, Expression::RawHyperlink(t))
        },
        UrlFound::NoUrl => Res::NoMatch,
        UrlFound::Abort => Res::Abort,
    }
}

fn attribute_exec(cs: ContentStyle, v: &Vec<char>, lo: usize, hi: usize) -> (r: Res<(String, Vec<Expression>)>)
    requires
        lo <= hi <= v@.len(),
    ensures
        res_attr(r, attribute_spec(cs, v@, lo as int, hi as int)),
        r matches Res::Match(n, _) ==> n == hi && lo < hi,
    decreases hi - lo, 0int,
{
    proof {
        lemma_attribute_def(cs, v@, lo as int, hi as int);
    }
    let roam_sep: [char; 2] = [':', ':'];
    let logseq_sep: [char; 3] = [':', ':', ' '];
    assert(roam_sep@ == seq![':', ':']);
    assert(logseq_sep@ == seq![':', ':', ' ']);
    let (a, e, sep): (usize, usize, &[char]) = match cs {
        ContentStyle::Roam => (lo, span_of(v, lo, hi, CharClass::NotColonOrBacktick), &roam_sep),
        ContentStyle::Logseq => {
            let a = span_of(v, lo, hi, CharClass::Multispace);
            (a, span_of(v, a, hi, CharClass::AttrName), &logseq_sep)
        },
    };
    if e > a && starts_with_at(v, e, hi, sep) {
        let q = span_of(v, e + sep.len(), hi, CharClass::Multispace);
        if lo < q {
            match parse_inline_exec(cs, false, v, q, hi) {
                Some(out) => Res::Match(hi, (string_of(v, a, e), out)),
                None => Res::Abort,
            }
        } else {
            Res::NoMatch
        }
    } else {
        Res::NoMatch
    }
}

fn directive_exec(cs: ContentStyle, allow_attr: bool, v: &Vec<char>, lo: usize, hi: usize) -> (r: Res<Expression>)
    requires
        lo <= hi <= v@.len(),
    ensures
        res_expr(r, directive_spec(cs, allow_attr, v@, lo as int, hi as int)),
        res_within(r, lo as int, hi as int),
    decreases hi - lo, 5int,
{
    proof {
        lemma_directive_def(cs, allow_attr, v@, lo as int, hi as int);
    }
    match simple_directive_exec(cs, v, lo, hi) {
        Res::Match(n, e) => Res::Match(n, e),
        Res::Abort => Res::Abort,
        Res::NoMatch => styled_directive_exec(cs, allow_attr, v, lo, hi),
    }
}

fn styled_directive_exec(cs: ContentStyle, allow_attr: bool, v: &Vec<char>, lo: usize, hi: usize) -> (r: Res<Expression>)
    requires
        lo <= hi <= v@.len(),
    ensures
        res_expr(r, styled_directive_spec(cs, allow_attr, v@, lo as int, hi as int)),
        res_within(r, lo as int, hi as int),
    decreases hi - lo, 4int,
{
    proof {
        lemma_styled_directive_def(cs, allow_attr, v@, lo as int, hi as int);
    }
    match emphasis_exec(cs, v, lo, hi) {
        Res::Match(n, (bold, out)) => {
            proof {
                lemma_model_nested(out);
            }
            return Res::Match(
                n,
                if bold {
                    Expression::Bold(out)
                } else {
                    Expression::Italic(out)
                },
            );
        },
        Res::Abort => {
            return Res::Abort;
        },
        Res::NoMatch => {},
    }
    late_or_attribute_exec(cs, allow_attr, v, lo, hi)
}

fn late_or_attribute_exec(cs: ContentStyle, allow_attr: bool, v: &Vec<char>, lo: usize, hi: usize) -> (r: Res<Expression>)
    requires
        lo <= hi <= v@.len(),
    ensures
        res_expr(r, late_or_attribute_spec(cs, allow_attr, v@, lo as int, hi as int)),
        res_within(r, lo as int, hi as int),
    decreases hi - lo, 3int,
{
    proof {
        lemma_late_or_attribute_def(cs, allow_attr, v@, lo as int, hi as int);
    }
    match late_directive_exec(cs, v, lo, hi) {
        Res::Match(n, e) => {
            return Res::Match(n, e);
        },
        Res::Abort => {
            return Res::Abort;
        },
        Res::NoMatch => {},
    }
    if allow_attr {
        match attribute_exec(cs, v, lo, hi) {
            Res::Match(n, (name, value)) => {
                proof {
                    lemma_model_attribute(value, name);
                }
                Res::Match(n, Expression::Attribute { name, value })
            },
            Res::Abort => Res::Abort,
            Res::NoMatch => Res::NoMatch,
        }
    } else {
        Res::NoMatch
    }
}

enum ScanExec {
    Found(usize, usize, Expression),
    NotFound,
    Abort,
}

fn scan_exec(cs: ContentStyle, allow_attr: bool, v: &Vec<char>, from: usize, hi: usize) -> (r: ScanExec)
    requires
        from <= hi <= v@.len(),
    ensures
        match (r, scan_spec(cs, allow_attr, v@, from as int, hi as int)) {
            (ScanExec::Found(k, n, e), Scan::Found(k2, n2, e2)) => k == k2 && n == n2 && expr_model(
                e,
            ) == e2 && from <= k < n <= hi,
            (ScanExec::NotFound, Scan::NotFound) => true,
            (ScanExec::Abort, Scan::Abort) => true,
            _ => false,
        },
    decreases hi - from, 6int,
{
    let mut k = from;
    while k < hi
        invariant
            from <= k <= hi <= v@.len(),
            scan_spec(cs, allow_attr, v@, from as int, hi as int) == scan_spec(
                cs,
                allow_attr,
                v@,
                k as int,
                hi as int,
            ),
        decreases hi - k,
    {
        proof {
            lemma_scan_def(cs, allow_attr, v@, k as int, hi as int);
        }
        match directive_exec(cs, allow_attr, v, k, hi) {
            Res::Match(n, e) => {
                return ScanExec::Found(k, n, e);
            },
            Res::Abort => {
                return ScanExec::Abort;
            },
            Res::NoMatch => {},
        }
        k = k + 1;
    }
    proof {
        lemma_scan_def(cs, allow_attr, v@, k as int, hi as int);
    }
    ScanExec::NotFound
}

pub open spec fn prepend(pre: Seq<Expr>, rest: Option<Seq<Expr>>) -> Option<Seq<Expr>> {
    match rest {
        Some(r) => Some(pre + r),
        None => None,
    }
}

fn parse_inline_exec(cs: ContentStyle, allow_attr: bool, v: &Vec<char>, lo: usize, hi: usize) -> (r: Option<Vec<Expression>>)
    requires
        lo <= hi <= v@.len(),
    ensures
        match r {
            Some(out) => parse_inline_spec(cs, allow_attr, v@, lo as int, hi as int) == Some(
                exprs_model(out@),
            ),
            None => parse_inline_spec(cs, allow_attr, v@, lo as int, hi as int) is None,
        },
    decreases hi - lo, 7int,
{
    let mut out: Vec<Expression> = Vec::new();
    let mut cur = lo;
    loop
        invariant
            lo <= cur <= hi <= v@.len(),
            parse_inline_spec(cs, allow_attr, v@, lo as int, hi as int) == prepend(
                exprs_model(out@),
                parse_inline_spec(cs, allow_attr, v@, cur as int, hi as int),
            ),
        decreases hi - cur,
    {
        proof {
            lemma_parse_inline_def(cs, allow_attr, v@, cur as int, hi as int);
        }
        if cur >= hi {
            assert(exprs_model(out@) + Seq::<Expr>::empty() =~= exprs_model(out@));
            return Some(out);
        }
        match scan_exec(cs, allow_attr, v, cur, hi) {
            ScanExec::Found(k, n, e) => {
                let ghost m0 = exprs_model(out@);
                let ghost rest = parse_inline_spec(cs, allow_attr, v@, n as int, hi as int);
                if k > cur {
                    let ts = string_of(v, cur, k);
                    proof {
                        lemma_model_flat(ts, ts, false);
                    }
                    let t = Expression::Text(ts);
                    proof {
                        lemma_exprs_model_push(out@, t);
                    }
                    out.push(t);
                }
                let ghost e_model = expr_model(e);
                proof {
                    lemma_exprs_model_push(out@, e);
                }
                out.push(e);
                proof {
                    let pre = (if k > cur {
                        seq![Expr::Text(v@.subrange(cur as int, k as int))]
                    } else {
                        Seq::empty()
                    }).push(e_model);
                    assert(exprs_model(out@) =~= m0 + pre);
                    match rest {
                        Some(r) => {
                            assert(m0 + (pre + r) =~= (m0 + pre) + r);
                        },
                        None => {},
                    }
                }
                cur = n;
            },
            ScanExec::NotFound => {
                let ts = string_of(v, cur, hi);
                proof {
                    lemma_model_flat(ts, ts, false);
                }
                let t = Expression::Text(ts);
                proof {
                    lemma_exprs_model_push(out@, t);
                    assert(exprs_model(out@) + seq![expr_model(t)] =~= exprs_model(
                        out@,
                    ).push(expr_model(t)));
                }
                out.push(t);
                return Some(out);
            },
            ScanExec::Abort => {
                return None;
            },
        }
    }
}


proof fn lemma_exprs_model_concat(a: Seq<Expression>, b: Seq<Expression>)
    ensures
        exprs_model(a + b) == exprs_model(a) + exprs_model(b),
    decreases b.len(),
{
    if b.len() == 0 {
        assert(a + b =~= a);
        assert(exprs_model(a) + exprs_model(b) =~= exprs_model(a));
    } else {
        let b0 = b.subrange(0, b.len() - 1);
        lemma_exprs_model_concat(a, b0);
        assert(a + b =~= (a + b0).push(b[b.len() - 1]));
        assert(b =~= b0.push(b[b.len() - 1]));
        lemma_exprs_model_push(a + b0, b[b.len() - 1]);
        lemma_exprs_model_push(b0, b[b.len() - 1]);
        assert(exprs_model(a) + exprs_model(b0).push(expr_model(b[b.len() - 1])) =~= (exprs_model(
            a,
        ) + exprs_model(b0)).push(expr_model(b[b.len() - 1])));
    }
}

/// Why a matcher found nothing.
#[derive(Debug, Clone, Copy, PartialEq, Eq)]
pub enum ParseError {
    /// The input does not start with what the matcher looks for.
    NoMatch,
}

/// The expressions of a block's text, or `None` on a text on which the grammar cannot be carried
/// out (see `parse_spec`).
pub fn try_parse(content_style: ContentStyle, input: &str) -> (r: Option<Vec<Expression>>)
    ensures
        match parse_spec(content_style, input@) {
            Some(m) => r is Some && exprs_model(r->0@) == m,
            None => r is None,
        },
{
    let v = to_chars(input);
    let hi = v.len();
    let hrule: [char; 3] = ['-', '-', '-'];
    let quote: [char; 2] = ['>', ' '];
    assert(hrule@ == seq!['-', '-', '-']);
    assert(quote@ == seq!['>', ' ']);
    let mut out: Vec<Expression> = Vec::new();
    if hi == 3 && starts_with_at(&v, 0, hi, &hrule) {
        proof {
            lemma_exprs_model_push(out@, Expression::HRule);
            lemma_model_unit(false);
        }
        out.push(Expression::HRule);
        return Some(out);
    }
    if starts_with_at(&v, 0, hi, &quote) {
        match parse_inline_exec(content_style, true, &v, 2, hi) {
            Some(inner) => {
                proof {
                    lemma_model_nested(inner);
                }
                let e = Expression::BlockQuote(inner);
                proof {
                    lemma_exprs_model_push(out@, e);
                }
                out.push(e);
                return Some(out);
            },
            None => {
                return None;
            },
        }
    }
    parse_body_exec(content_style, &v)
}

fn parse_body_exec(content_style: ContentStyle, v: &Vec<char>) -> (r: Option<Vec<Expression>>)
    ensures
        match parse_body_spec(content_style, v@) {
            Some(m) => r is Some && exprs_model(r->0@) == m,
            None => r is None,
        },
{
    let hi = v.len();
    let mut out: Vec<Expression> = Vec::new();
    if content_style == ContentStyle::Roam {
        match attribute_exec(content_style, v, 0, hi) {
            Res::Match(_, (name, value)) => {
                proof {
                    lemma_model_attribute(value, name);
                }
                let e = Expression::Attribute { name, value };
                proof {
                    lemma_exprs_model_push(out@, e);
                }
                out.push(e);
                return Some(out);
            },
            Res::Abort => {
                return None;
            },
            Res::NoMatch => {},
        }
    }
    if content_style == ContentStyle::Logseq {
        if let Some((p, todo)) = logseq_todo_exec(v, 0, hi) {
            match parse_inline_exec(content_style, true, v, p, hi) {
                Some(rest) => {
                    proof {
                        lemma_exprs_model_push(out@, todo);
                    }
                    out.push(todo);
                    let ghost first = out@;
                    let ghost tail = rest@;
                    let mut rest = rest;
                    out.append(&mut rest);
                    proof {
                        lemma_exprs_model_concat(first, tail);
                        assert(exprs_model(first) =~= seq![expr_model(todo)]) by {
                            lemma_exprs_model_push(Seq::<Expression>::empty(), todo);
                            assert(Seq::<Expression>::empty().push(todo) =~= first);
                        }
                    }
                    return Some(out);
                },
                None => {
                    return None;
                },
            }
        }
    }
    parse_inline_exec(content_style, true, v, 0, hi)
}

fn logseq_todo_exec(v: &Vec<char>, lo: usize, hi: usize) -> (r: Option<(usize, Expression)>)
    requires
        lo <= hi <= v@.len(),
    ensures
        match r {
            Some((p, e)) => logseq_todo_spec(v@, lo as int, hi as int) == Some(
                (p as int, expr_model(e)),
            ) && lo <= p <= hi,
            None => logseq_todo_spec(v@, lo as int, hi as int) is None,
        },
{
    reveal(expr_model);
    let todo_w: [char; 4] = ['T', 'O', 'D', 'O'];
    let doing_w: [char; 5] = ['D', 'O', 'I', 'N', 'G'];
    let now_w: [char; 3] = ['N', 'O', 'W'];
    let later_w: [char; 5] = ['L', 'A', 'T', 'E', 'R'];
    let done_w: [char; 4] = ['D', 'O', 'N', 'E'];
    assert(todo_w@ == seq!['T', 'O', 'D', 'O']);
    assert(doing_w@ == seq!['D', 'O', 'I', 'N', 'G']);
    assert(now_w@ == seq!['N', 'O', 'W']);
    assert(later_w@ == seq!['L', 'A', 'T', 'E', 'R']);
    assert(done_w@ == seq!['D', 'O', 'N', 'E']);
    proof {
        lemma_model_unit(false);
        lemma_model_unit(true);
    }
    if starts_with_at(v, lo, hi, &todo_w) {
        Some((lo + 4, Expression::Todo { done: false }))
    } else if starts_with_at(v, lo, hi, &doing_w) {
        Some((lo + 5, Expression::Todo { done: false }))
    } else if starts_with_at(v, lo, hi, &now_w) {
        Some((lo + 3, Expression::Todo { done: false }))
    } else if starts_with_at(v, lo, hi, &later_w) {
        Some((lo + 5, Expression::Todo { done: false }))
    } else if starts_with_at(v, lo, hi, &done_w) {
        Some((lo + 4, Expression::Todo { done: true }))
    } else {
        None
    }
}

/// The expressions of a block's text; an error exactly on a text on which the grammar cannot be
/// carried out (see `parse_spec`): one that holds a markdown link or image ending in a backslash,
/// or a bare URL that the locator would split inside a character or whose counters would
/// overflow.
pub fn parse(content_style: ContentStyle, input: &str) -> (r: Result<Vec<Expression>, ParseError>)
    ensures
        match parse_spec(content_style, input@) {
            Some(m) => r matches Ok(v) && exprs_model(v@) == m,
            None => r == Err::<Vec<Expression>, ParseError>(ParseError::NoMatch),
        },
{
    match try_parse(content_style, input) {
        Some(v) => Ok(v),
        None => Err(ParseError::NoMatch),
    }
}

/// `Name:: value` over the whole input: the rest of the input (always empty), the name and the
/// parsed value.
pub fn attribute(style: ContentStyle, input: &str) -> (r: Result<(String, (String, Vec<Expression>)), ParseError>)
    requires
        !(attribute_spec(style, input@, 0, input@.len() as int) is Abort),
    ensures
        match attribute_spec(style, input@, 0, input@.len() as int) {
            PRes::Match(_, (name, value)) => r matches Ok((rest, (n, v))) && rest@ == Seq::<
                char,
            >::empty() && n@ == name && exprs_model(v@) == value,
            _ => r == Err::<(String, (String, Vec<Expression>)), ParseError>(ParseError::NoMatch),
        },
{
    let v = to_chars(input);
    let hi = v.len();
    match attribute_exec(style, &v, 0, hi) {
        Res::Match(_, (name, value)) => Ok((String::new(), (name, value))),
        _ => Err(ParseError::NoMatch),
    }
}

/// `[[page]]` or a bare word at the start of the input: the rest of the input and the page or
/// word.
pub fn link_or_word(input: &str) -> (r: Result<(String, String), ParseError>)
    ensures
        match link_or_word_spec(input@, 0, input@.len() as int) {
            Some((c0, c1, n)) => r matches Ok((rest, w)) && rest@ == input@.subrange(
                n,
                input@.len() as int,
            ) && w@ == input@.subrange(c0, c1),
            None => r == Err::<(String, String), ParseError>(ParseError::NoMatch),
        },
{
    let v = to_chars(input);
    let hi = v.len();
    match link_or_word_exec(&v, 0, hi) {
        Some((c0, c1, n)) => Ok((string_of(&v, n, hi), string_of(&v, c0, c1))),
        None => Err(ParseError::NoMatch),
    }
}

/// `#tag`, `#[[a tag]]` or `#.tag` at the start of the input: the rest of the input, the tag
/// and whether it was written with a dot.
pub fn hashtag(input: &str) -> (r: Result<(String, (String, bool)), ParseError>)
    ensures
        match hashtag_spec(input@, 0, input@.len() as int) {
            Some((c0, c1, n, dot)) => r matches Ok((rest, (t, d))) && rest@ == input@.subrange(
                n,
                input@.len() as int,
            ) && t@ == input@.subrange(c0, c1) && d == dot,
            None => r == Err::<(String, (String, bool)), ParseError>(ParseError::NoMatch),
        },
{
    let v = to_chars(input);
    let hi = v.len();
    match hashtag_exec(&v, 0, hi) {
        Some((c0, c1, n, dot)) => Ok((string_of(&v, n, hi), (string_of(&v, c0, c1), dot))),
        None => Err(ParseError::NoMatch),
    }
}

impl Expression {
    /// The expressions nested directly inside this one: the content of a style, a block quote,
    /// or an attribute's value.
    pub fn contained_expressions(&self) -> (r: &[Expression])
        ensures
            r@ == match self {
                Expression::Bold(v) => v@,
                Expression::Italic(v) => v@,
                Expression::Strike(v) => v@,
                Expression::Highlight(v) => v@,
                Expression::BlockQuote(v) => v@,
                Expression::Attribute { value, .. } => value@,
                _ => Seq::empty(),
            },
    {
        match self {
            Expression::Bold(exprs) => exprs.as_slice(),
            Expression::Italic(exprs) => exprs.as_slice(),
            Expression::Strike(exprs) => exprs.as_slice(),
            Expression::Highlight(exprs) => exprs.as_slice(),
            Expression::BlockQuote(exprs) => exprs.as_slice(),
            Expression::Attribute { value, .. } => value.as_slice(),
            _ => &[],
        }
    }
}

/// A character that can start or mark a directive of the inline grammar.
pub open spec fn markup_char(c: char) -> bool {
    c == '[' || c == '(' || c == '{' || c == '`' || c == '#' || c == '!' || c == '@' || c == '*'
        || c == '_' || c == '~' || c == '^' || c == '$' || c == ':'
}

/// Text with no markup character.
pub open spec fn no_markup(s: Seq<char>) -> bool {
    forall|k: int| 0 <= k < s.len() ==> !markup_char(#[trigger] s[k])
}

/// Text with no markup character, in which the URL locator finds no URL from any position.
pub open spec fn plain_text(s: Seq<char>) -> bool {
    &&& no_markup(s)
    &&& forall|k: int| 0 <= k < s.len() ==> #[trigger] raw_url_spec(s, k, s.len() as int) == UrlMatch::NoUrl
}

#[verifier::spinoff_prover]
#[verifier::rlimit(50)]
proof fn lemma_no_fence(s: Seq<char>, lo: int, hi: int, a: Seq<char>, b: Seq<char>)
    requires
        a.len() > 0,
        markup_char(a[0]),
        0 <= lo < hi <= s.len(),
        !markup_char(s[lo]),
    ensures
        fenced(s, lo, hi, a, b) is None,
        !starts_at(s, lo, hi, a),
{
    if starts_at(s, lo, hi, a) {
        assert(s[lo + 0] == a[0]);
    }
}

#[verifier::spinoff_prover]
#[verifier::rlimit(50)]
proof fn lemma_no_style(cs: ContentStyle, s: Seq<char>, lo: int, hi: int, b: Seq<char>)
    requires
        b.len() > 0,
        markup_char(b[0]),
        0 <= lo < hi <= s.len(),
        !markup_char(s[lo]),
    ensures
        style_spec(cs, s, lo, hi, b) == PRes::<Seq<Expr>>::NoMatch,
{
    lemma_no_fence(s, lo, hi, b, b);
}

#[verifier::spinoff_prover]
#[verifier::rlimit(50)]
proof fn lemma_no_attribute(cs: ContentStyle, s: Seq<char>, lo: int, hi: int)
    requires
        0 <= lo < hi <= s.len(),
        no_markup(s),
    ensures
        attribute_spec(cs, s, lo, hi) == PRes::<(Seq<char>, Seq<Expr>)>::NoMatch,
{
    let (a, e, sep) = match cs {
        ContentStyle::Roam => (lo, span(s, lo, hi, CharClass::NotColonOrBacktick), seq![':', ':']),
        ContentStyle::Logseq => {
            let a = span(s, lo, hi, CharClass::Multispace);
            (a, span(s, a, hi, CharClass::AttrName), seq![':', ':', ' '])
        },
    };
    if starts_at(s, e, hi, sep) {
        assert(s[e + 0] == sep[0]);
        assert(!markup_char(s[e]));
    }
}

#[verifier::spinoff_prover]
#[verifier::rlimit(50)]
proof fn lemma_no_simple_directive(cs: ContentStyle, s: Seq<char>, k: int, hi: int)
    requires
        0 <= k < hi <= s.len(),
        !markup_char(s[k]),
    ensures
        simple_directive_spec(cs, s, k, hi) == PRes::<Expr>::NoMatch,
{
    lemma_no_fence(s, k, hi, seq!['`', '`', '`'], seq!['`', '`', '`']);
    lemma_no_fence(s, k, hi, seq!['{', '{'], seq!['}', '}']);
    lemma_no_fence(s, k, hi, lit_link_open(), lit_link_close());
    lemma_no_fence(s, k, hi, seq!['(', '('], seq![')', ')']);
    lemma_no_fence(s, k, hi, seq!['@', '@', 'h', 't', 'm', 'l', ':', ' '], seq!['@', '@']);
    lemma_no_fence(s, k, hi, seq!['['], seq![']']);
    assert(brace_directive_spec(cs, s, k, hi) == PRes::<Expr>::NoMatch);
    assert(markdown_link_spec(s, k, hi) == PRes::<(int, int, int)>::NoMatch);
    assert(links_spec(s, k, hi) == PRes::<Expr>::NoMatch);
}

#[verifier::spinoff_prover]
#[verifier::rlimit(50)]
proof fn lemma_no_late(cs: ContentStyle, s: Seq<char>, k: int, hi: int)
    requires
        0 <= k < hi <= s.len(),
        !markup_char(s[k]),
        raw_url_spec(s, k, hi) == UrlMatch::NoUrl,
    ensures
        late_spec(cs, s, k, hi) == PRes::<Expr>::NoMatch,
{
    lemma_no_fence(s, k, hi, seq!['$', '$'], seq!['$', '$']);
    lemma_no_style(cs, s, k, hi, seq!['~', '~']);
    lemma_no_style(cs, s, k, hi, seq!['^', '^']);
}

#[verifier::spinoff_prover]
#[verifier::rlimit(50)]
proof fn lemma_no_emphasis(cs: ContentStyle, s: Seq<char>, k: int, hi: int)
    requires
        0 <= k < hi <= s.len(),
        !markup_char(s[k]),
    ensures
        emphasis_of(
            cs,
            style_spec(cs, s, k, hi, seq!['*', '*']),
            style_spec(cs, s, k, hi, seq!['_', '_']),
            style_spec(cs, s, k, hi, seq!['_']),
            style_spec(cs, s, k, hi, seq!['*']),
        ) == PRes::<(bool, Seq<Expr>)>::NoMatch,
{
    lemma_no_style(cs, s, k, hi, seq!['*', '*']);
    lemma_no_style(cs, s, k, hi, seq!['_', '_']);
    lemma_no_style(cs, s, k, hi, seq!['_']);
    lemma_no_style(cs, s, k, hi, seq!['*']);
}

#[verifier::spinoff_prover]
#[verifier::rlimit(50)]
proof fn lemma_no_styled_directive(cs: ContentStyle, s: Seq<char>, k: int, hi: int)
    requires
        0 <= k < hi <= s.len(),
        no_markup(s),
        raw_url_spec(s, k, hi) == UrlMatch::NoUrl,
    ensures
        styled_directive_spec(cs, true, s, k, hi) == PRes::<Expr>::NoMatch,
{
    assert(!markup_char(s[k]));
    lemma_no_emphasis(cs, s, k, hi);
    lemma_no_late(cs, s, k, hi);
    lemma_no_attribute(cs, s, k, hi);
}

proof fn lemma_no_directive(cs: ContentStyle, s: Seq<char>, k: int)
    requires
        plain_text(s),
        0 <= k < s.len(),
    ensures
        directive_spec(cs, true, s, k, s.len() as int) == PRes::<Expr>::NoMatch,
{
    assert(!markup_char(s[k]));
    assert(raw_url_spec(s, k, s.len() as int) == UrlMatch::NoUrl);
    lemma_no_simple_directive(cs, s, k, s.len() as int);
    lemma_no_styled_directive(cs, s, k, s.len() as int);
}

proof fn lemma_scan_plain(cs: ContentStyle, s: Seq<char>, k: int)
    requires
        plain_text(s),
        0 <= k,
    ensures
        scan_spec(cs, true, s, k, s.len() as int) == Scan::NotFound,
    decreases s.len() - k,
{
    if k < s.len() {
        lemma_no_directive(cs, s, k);
        lemma_scan_plain(cs, s, k + 1);
    }
}

/// Text without markup characters, in which the URL locator finds no URL, and that is not a
/// rule, a quote, or (in Logseq) a task, parses to one text expression holding all of it,
/// whitespace included.
proof fn lemma_inline_plain(cs: ContentStyle, s: Seq<char>)
    requires
        s.len() > 0,
        plain_text(s),
    ensures
        parse_inline_spec(cs, true, s, 0, s.len() as int) == Some(seq![Expr::Text(s)]),
{
    lemma_scan_plain(cs, s, 0);
    reveal(parse_inline_spec);
    assert(s.subrange(0, s.len() as int) =~= s);
}

/// Text without markup characters, in which the URL locator finds no URL, and that is not a
/// rule, a quote, or (in Logseq) a task, parses to one text expression holding all of it,
/// whitespace included.
#[verifier::spinoff_prover]
#[verifier::rlimit(50)]
pub proof fn law_plain_text_is_one_text(cs: ContentStyle, s: Seq<char>)
    requires
        s.len() > 0,
        plain_text(s),
        s != seq!['-', '-', '-'],
        !starts_at(s, 0, s.len() as int, seq!['>', ' ']),
        cs == ContentStyle::Logseq ==> logseq_todo_spec(s, 0, s.len() as int) is None,
    ensures
        parse_spec(cs, s) == Some(seq![Expr::Text(s)]),
{
    let hi = s.len() as int;
    if s.len() == 3 && starts_at(s, 0, 3, seq!['-', '-', '-']) {
        let d = seq!['-', '-', '-'];
        assert(s[0int + 0int] == d[0] && s[0int + 1int] == d[1] && s[0int + 2int] == d[2]);
        assert(s =~= d);
    }
    lemma_inline_plain(cs, s);
    lemma_no_attribute(cs, s, 0, hi);
    assert(parse_body_spec(cs, s) == Some(seq![Expr::Text(s)]));
}

/// The first letter of a text that starts with `pat`.
proof fn lemma_starts_first(s: Seq<char>, hi: int, pat: Seq<char>)
    requires
        pat.len() > 0,
        starts_at(s, 0, hi, pat),
    ensures
        s.len() > 0 && s[0] == pat[0],
{
    assert(s[0int + 0int] == pat[0]);
}

/// What the Logseq task reader gives for each marker.
#[verifier::spinoff_prover]
proof fn lemma_task_markers(s: Seq<char>)
    ensures
        ({
            let hi = s.len() as int;
            &&& (starts_at(s, 0, hi, seq!['T', 'O', 'D', 'O']) || starts_at(s, 0, hi, seq!['D', 'O', 'I', 'N', 'G'])
                || starts_at(s, 0, hi, seq!['N', 'O', 'W']) || starts_at(s, 0, hi, seq!['L', 'A', 'T', 'E', 'R']))
                ==> logseq_todo_spec(s, 0, hi) is Some && logseq_todo_spec(s, 0, hi)->Some_0.1 == Expr::Todo { done: false }
            &&& starts_at(s, 0, hi, seq!['D', 'O', 'N', 'E']) ==> logseq_todo_spec(s, 0, hi) is Some
                && logseq_todo_spec(s, 0, hi)->Some_0.1 == Expr::Todo { done: true }
        }),
{
    let hi = s.len() as int;
    if starts_at(s, 0, hi, seq!['D', 'O', 'N', 'E']) {
        assert(s[0int + 2int] == seq!['D', 'O', 'N', 'E'][2]);
        if starts_at(s, 0, hi, seq!['T', 'O', 'D', 'O']) {
            lemma_starts_first(s, hi, seq!['T', 'O', 'D', 'O']);
            lemma_starts_first(s, hi, seq!['D', 'O', 'N', 'E']);
        }
        if starts_at(s, 0, hi, seq!['D', 'O', 'I', 'N', 'G']) {
            assert(s[0int + 2int] == seq!['D', 'O', 'I', 'N', 'G'][2]);
        }
        if starts_at(s, 0, hi, seq!['N', 'O', 'W']) {
            lemma_starts_first(s, hi, seq!['N', 'O', 'W']);
            lemma_starts_first(s, hi, seq!['D', 'O', 'N', 'E']);
        }
        if starts_at(s, 0, hi, seq!['L', 'A', 'T', 'E', 'R']) {
            lemma_starts_first(s, hi, seq!['L', 'A', 'T', 'E', 'R']);
            lemma_starts_first(s, hi, seq!['D', 'O', 'N', 'E']);
        }
    }
}

/// A Logseq text that starts with a task marker parses to the marker's expression first.
#[verifier::spinoff_prover]
proof fn lemma_marker_first(s: Seq<char>, p: int, e: Expr)
    requires
        logseq_todo_spec(s, 0, s.len() as int) == Some((p, e)),
        s.len() > 0,
        s[0] != '-',
        s[0] != '>',
        parse_spec(ContentStyle::Logseq, s) is Some,
    ensures
        parse_spec(ContentStyle::Logseq, s)->Some_0.len() > 0,
        parse_spec(ContentStyle::Logseq, s)->Some_0[0] == e,
{
    let hi = s.len() as int;
    if starts_at(s, 0, 3, seq!['-', '-', '-']) {
        lemma_starts_first(s, 3, seq!['-', '-', '-']);
    }
    if starts_at(s, 0, hi, seq!['>', ' ']) {
        lemma_starts_first(s, hi, seq!['>', ' ']);
    }
    let v = parse_inline_spec(ContentStyle::Logseq, true, s, p, hi)->Some_0;
    assert(parse_body_spec(ContentStyle::Logseq, s) == Some(seq![e] + v));
    assert((seq![e] + v)[0] == e);
}

/// In Logseq text, a task marker at the start of a block is read first, and only `DONE` marks the
/// task as finished: `TODO`, `DOING`, `NOW` and `LATER` start an unfinished one.
#[verifier::spinoff_prover]
#[verifier::rlimit(60)]
pub proof fn law_task_marker_done_only_for_done(s: Seq<char>)
    requires
        parse_spec(ContentStyle::Logseq, s) is Some,
    ensures
        ({
            let v = parse_spec(ContentStyle::Logseq, s)->Some_0;
            let hi = s.len() as int;
            &&& (starts_at(s, 0, hi, seq!['T', 'O', 'D', 'O']) || starts_at(s, 0, hi, seq!['D', 'O', 'I', 'N', 'G'])
                || starts_at(s, 0, hi, seq!['N', 'O', 'W']) || starts_at(s, 0, hi, seq!['L', 'A', 'T', 'E', 'R']))
                ==> v.len() > 0 && v[0] == Expr::Todo { done: false }
            &&& starts_at(s, 0, hi, seq!['D', 'O', 'N', 'E']) ==> v.len() > 0 && v[0] == Expr::Todo { done: true }
        }),
{
    let hi = s.len() as int;
    lemma_task_markers(s);
    match logseq_todo_spec(s, 0, hi) {
        Some((p, e)) => {
            if starts_at(s, 0, hi, seq!['T', 'O', 'D', 'O']) {
                lemma_starts_first(s, hi, seq!['T', 'O', 'D', 'O']);
            } else if starts_at(s, 0, hi, seq!['D', 'O', 'I', 'N', 'G']) {
                lemma_starts_first(s, hi, seq!['D', 'O', 'I', 'N', 'G']);
            } else if starts_at(s, 0, hi, seq!['N', 'O', 'W']) {
                lemma_starts_first(s, hi, seq!['N', 'O', 'W']);
            } else if starts_at(s, 0, hi, seq!['L', 'A', 'T', 'E', 'R']) {
                lemma_starts_first(s, hi, seq!['L', 'A', 'T', 'E', 'R']);
            } else if starts_at(s, 0, hi, seq!['D', 'O', 'N', 'E']) {
                lemma_starts_first(s, hi, seq!['D', 'O', 'N', 'E']);
            }
            if starts_at(s, 0, hi, seq!['T', 'O', 'D', 'O']) || starts_at(s, 0, hi, seq!['D', 'O', 'I', 'N', 'G'])
                || starts_at(s, 0, hi, seq!['N', 'O', 'W']) || starts_at(s, 0, hi, seq!['L', 'A', 'T', 'E', 'R'])
                || starts_at(s, 0, hi, seq!['D', 'O', 'N', 'E']) {
                lemma_marker_first(s, p, e);
            }
        },
        None => {},
    }
}

} // verus!
