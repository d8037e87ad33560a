//! The lines of a Logseq page, read into raw blocks with their indentation and settings.
use vstd::prelude::*;

use crate::attr_map::{texts, AttrMap};
use crate::chars::{
    chars_equal, find, find_from, span, span_of, starts_at, starts_with_at, string_of, to_chars,
    CharClass,
};
use crate::content::{BlockContent, ContentError};
use crate::graph::{view_type_named, ListType, ViewType};
use crate::logseq::attrs::{attr_line_spec, parse_attr_line};
use crate::links::join_with;
use crate::parse_string::{
    exprs_model, lemma_exprs_model_index, lemma_model_hashtag, parse_spec, ContentStyle, Expr,
    Expression,
};

verus! {

/// One line of a page, as the block reader sees it.
#[derive(Debug, PartialEq, Eq)]
pub struct Line {
    pub contents: String,
    pub indent: u32,
    pub header: u32,
    pub new_block: bool,
    pub attr_name: String,
    pub attr_values: Vec<String>,
}

/// Mathematical model of a `Line`.
pub struct LineModel {
    pub contents: Seq<char>,
    pub indent: u32,
    pub header: u32,
    pub new_block: bool,
    pub attr_name: Seq<char>,
    pub attr_values: Seq<Seq<char>>,
}

impl Line {
    pub open spec fn model(&self) -> LineModel {
        LineModel {
            contents: self.contents@,
            indent: self.indent,
            header: self.header,
            new_block: self.new_block,
            attr_name: self.attr_name@,
            attr_values: texts(self.attr_values@),
        }
    }
}

/// Where a line's text starts after its list marker, whether the marker starts a new block, and
/// its heading level: tabs, then `- ` (possibly after more spaces) and an optional run of `#`
/// followed by a space; or a lone `-`; or two spaces; or nothing.
pub open spec fn line_start(s: Seq<char>) -> (int, bool, u32) {
    let len = s.len() as int;
    let tabs = span(s, 0, len, CharClass::Tab);
    let m = span(s, tabs, len, CharClass::Multispace);
    if starts_at(s, m, len, seq!['-', ' ']) {
        let p = m + 2;
        let h = span(s, p, len, CharClass::Hash);
        if h < len && s[h] == ' ' {
            (h + 1, true, (h - p) as u32)
        } else {
            (p, true, 0)
        }
    } else if s.subrange(tabs, len) == seq!['-'] {
        (len, true, 0)
    } else if starts_at(s, tabs, len, seq![' ', ' ']) {
        (tabs + 2, false, 0)
    } else {
        (tabs, false, 0)
    }
}

/// What `evaluate_line` makes of a line. Inside a code block the line is kept as it is, less a
/// two-space indent after its tabs. Outside, an empty line is nothing; any other line gives its
/// indent (the number of leading tabs), marker, heading and any `name:: value` attribute.
pub open spec fn evaluate_line_spec(s: Seq<char>, in_code_block: bool) -> Option<LineModel> {
    let len = s.len() as int;
    if in_code_block {
        let t = span(s, 0, len, CharClass::Tab);
        Some(
            LineModel {
                contents: if starts_at(s, t, len, seq![' ', ' ']) {
                    s.subrange(t + 2, len)
                } else {
                    s
                },
                indent: 0,
                header: 0,
                new_block: false,
                attr_name: Seq::empty(),
                attr_values: Seq::empty(),
            },
        )
    } else if len == 0 {
        None
    } else {
        let (r, dash, header) = line_start(s);
        let rest = s.subrange(r, len);
        let attr = attr_line_spec(seq![':', ':'], rest);
        Some(
            LineModel {
                contents: rest,
                indent: span(s, 0, len, CharClass::Tab) as u32,
                header,
                new_block: dash,
                attr_name: match attr {
                    Some((n, _)) => n,
                    None => Seq::empty(),
                },
                attr_values: match attr {
                    Some((_, v)) => v,
                    None => Seq::empty(),
                },
            },
        )
    }
}

/// Count a run of tabs as an indent level.
fn count_u32(n: usize) -> (r: u32)
    ensures
        r == n as u32,
{
    #[verifier::truncate]
    (n as u32)
}

/// Read one line of a page. Never fails; `None` for an empty line outside a code block.
pub fn evaluate_line(line: &str, in_code_block: bool) -> (r: Result<Option<Line>, ContentError>)
    ensures
        r matches Ok(found) && match evaluate_line_spec(line@, in_code_block) {
            None => found is None,
            Some(m) => found matches Some(l) && l.model() == m,
        },
{
    let v = to_chars(line);
    let len = v.len();
    let two_spaces = vec![' ', ' '];
    if in_code_block {
        let t = span_of(&v, 0, len, CharClass::Tab);
        let contents = if starts_with_at(&v, t, len, two_spaces.as_slice()) {
            string_of(&v, t + 2, len)
        } else {
            let c = string_of(&v, 0, len);
            assert(v@.subrange(0, len as int) =~= v@);
            c
        };
        let l = Line {
            contents,
            indent: 0,
            header: 0,
            new_block: false,
            attr_name: String::new(),
            attr_values: Vec::new(),
        };
        assert(texts(l.attr_values@) =~= Seq::<Seq<char>>::empty());
        return Ok(Some(l));
    }
    if len == 0 {
        return Ok(None);
    }
    let tabs = span_of(&v, 0, len, CharClass::Tab);
    let m = span_of(&v, tabs, len, CharClass::Multispace);
    let dash_space = vec!['-', ' '];
    let (r, dash, header): (usize, bool, u32) = if starts_with_at(&v, m, len, dash_space.as_slice()) {
        let p = m + 2;
        let h = span_of(&v, p, len, CharClass::Hash);
        if h < len && v[h] == ' ' {
            (h + 1, true, count_u32(h - p))
        } else {
            (p, true, 0)
        }
    } else if tabs < len && len - tabs == 1 && v[tabs] == '-' {
        assert(v@.subrange(tabs as int, len as int) =~= seq!['-']);
        (len, true, 0)
    } else if starts_with_at(&v, tabs, len, two_spaces.as_slice()) {
        proof {
            if v@.subrange(tabs as int, len as int) == seq!['-'] {
                assert(v@.subrange(tabs as int, len as int)[0] == v@[tabs as int]);
            }
        }
        (tabs + 2, false, 0)
    } else {
        proof {
            if v@.subrange(tabs as int, len as int) == seq!['-'] {
                assert(v@.subrange(tabs as int, len as int)[0] == v@[tabs as int]);
            }
        }
        (tabs, false, 0)
    };
    let rest = string_of(&v, r, len);
    let (attr_name, attr_values) = match parse_attr_line("::", rest.as_str()) {
        Ok(Some((n, vs))) => (n, vs),
        _ => {
            let none: Vec<String> = Vec::new();
            assert(texts(none@) =~= Seq::<Seq<char>>::empty());
            (String::new(), none)
        },
    };
    proof {
        reveal_strlit("::");
        assert("::"@ =~= seq![':', ':']);
    }
    Ok(
        Some(
            Line {
                contents: rest,
                indent: count_u32(tabs),
                header,
                new_block: dash,
                attr_name,
                attr_values,
            },
        ),
    )
}

/// A cursor over the lines of a page that can step back over the line it just read.
#[derive(Debug)]
pub struct Lines {
    pub lines: Vec<String>,
    pub pos: usize,
}

impl Lines {
    pub open spec fn all(&self) -> Seq<Seq<char>> {
        texts(self.lines@)
    }

    pub open spec fn wf(&self) -> bool {
        self.pos <= self.lines@.len()
    }

    /// A cursor before the first of `lines`.
    pub fn new(lines: Vec<String>) -> (r: Lines)
        ensures
            r.lines@ == lines@,
            r.pos == 0,
            r.wf(),
    {
        Lines { lines, pos: 0 }
    }

    /// The next line, if any, moving past it.
    pub fn next_line(&mut self) -> (r: Option<String>)
        requires
            old(self).wf(),
        ensures
            final(self).lines@ == old(self).lines@,
            final(self).wf(),
            old(self).pos < old(self).lines@.len() ==> (r matches Some(l) && l@ == old(
                self,
            ).lines@[old(self).pos as int]@ && final(self).pos == old(self).pos + 1),
            old(self).pos >= old(self).lines@.len() ==> r is None && final(self).pos == old(
                self,
            ).pos,
    {
        if self.pos < self.lines.len() {
            let l = self.lines[self.pos].clone();
            self.pos = self.pos + 1;
            Some(l)
        } else {
            None
        }
    }

    /// Step back over the line just read, so that it is read again.
    pub fn put_back(&mut self)
        requires
            old(self).wf(),
            old(self).pos > 0,
        ensures
            final(self).lines@ == old(self).lines@,
            final(self).pos == old(self).pos - 1,
            final(self).wf(),
    {
        self.pos = self.pos - 1;
    }
}

/// What the block reader has gathered so far.
pub struct BlockState {
    pub contents: Seq<Seq<char>>,
    pub indent: u32,
    pub id: Seq<char>,
    pub view_type: ViewType,
    pub list_type: ListType,
    pub header: u32,
    pub collapsed: bool,
    pub attrs: Map<Seq<char>, Seq<Seq<char>>>,
    pub in_code: bool,
    pub in_logbook: bool,
}

pub open spec fn initial_state() -> BlockState {
    BlockState {
        contents: Seq::empty(),
        indent: 0,
        id: Seq::empty(),
        view_type: ViewType::Inherit,
        list_type: ListType::Default,
        header: 0,
        collapsed: false,
        attrs: Map::empty(),
        in_code: false,
        in_logbook: false,
    }
}

/// One line's effect on the block reader.
pub enum StepSpec {
    /// Keep reading.
    Next(BlockState),
    /// The line starts the next block: step back over it and stop.
    Ends(BlockState),
    /// Stop after this line.
    Halt(BlockState),
}

pub open spec fn last_or_empty(v: Seq<Seq<char>>) -> Seq<char> {
    if v.len() > 0 {
        v.last()
    } else {
        Seq::empty()
    }
}

pub open spec fn lit_id() -> Seq<char> {
    seq!['i', 'd']
}

pub open spec fn lit_view_mode() -> Seq<char> {
    seq!['v', 'i', 'e', 'w', '-', 'm', 'o', 'd', 'e']
}

pub open spec fn lit_list_type() -> Seq<char> {
    seq![
        'l', 'o', 'g', 's', 'e', 'q', '.', 'o', 'r', 'd', 'e', 'r', '-', 'l', 'i', 's', 't', '-',
        't', 'y', 'p', 'e',
    ]
}

pub open spec fn lit_collapsed() -> Seq<char> {
    seq!['c', 'o', 'l', 'l', 'a', 'p', 's', 'e', 'd']
}

pub open spec fn lit_logbook() -> Seq<char> {
    seq![':', 'L', 'O', 'G', 'B', 'O', 'O', 'K', ':']
}

pub open spec fn lit_end() -> Seq<char> {
    seq![':', 'E', 'N', 'D']
}

pub open spec fn lit_fence() -> Seq<char> {
    seq!['`', '`', '`']
}

/// Take a line into the block: its indent if it is the first line, its heading, and either
/// one of the settings that the reader keeps apart (`id`, `view-mode`,
/// `logseq.order-list-type`, `collapsed`, each from its last value) or the line itself, with
/// its attribute if it has one.
pub open spec fn take_line(st: BlockState, p: LineModel, enter: bool) -> BlockState {
    let first = st.contents.len() == 0;
    let indent = if first {
        p.indent
    } else {
        st.indent
    };
    let in_code = if enter {
        true
    } else {
        st.in_code
    };
    let header = if p.header > 0 {
        p.header
    } else {
        st.header
    };
    let value = last_or_empty(p.attr_values);
    BlockState {
        indent,
        in_code,
        header,
        id: if p.attr_name == lit_id() {
            value
        } else {
            st.id
        },
        view_type: if p.attr_name != lit_id() && p.attr_name == lit_view_mode() {
            if p.attr_values.len() > 0 {
                view_type_named(value)
            } else {
                ViewType::Inherit
            }
        } else {
            st.view_type
        },
        list_type: if p.attr_name != lit_id() && p.attr_name != lit_view_mode() && p.attr_name
            == lit_list_type() && value == seq!['n', 'u', 'm', 'b', 'e', 'r'] {
            ListType::Number
        } else {
            st.list_type
        },
        collapsed: if p.attr_name != lit_id() && p.attr_name != lit_view_mode() && p.attr_name
            != lit_list_type() && p.attr_name == lit_collapsed() {
            value == seq!['t', 'r', 'u', 'e']
        } else {
            st.collapsed
        },
        attrs: if is_plain_line(p) && p.attr_name.len() > 0 {
            st.attrs.insert(p.attr_name, p.attr_values)
        } else {
            st.attrs
        },
        contents: if is_plain_line(p) {
            st.contents.push(p.contents)
        } else {
            st.contents
        },
        in_logbook: st.in_logbook,
    }
}

/// A line `logseq.order-list-type:: number` makes its block a numbered list item, and nothing
/// else changes a block's list type: the type read differs from the one before only for that
/// setting, whose last value is `number`.
pub proof fn law_number_setting_numbers_the_block(st: BlockState, p: LineModel, enter: bool)
    ensures
        p.attr_name == "logseq.order-list-type"@ && p.attr_values.len() > 0 && p.attr_values.last()
            == "number"@ ==> take_line(st, p, enter).list_type == ListType::Number,
        take_line(st, p, enter).list_type != st.list_type ==> p.attr_name
            == "logseq.order-list-type"@ && p.attr_values.len() > 0 && p.attr_values.last()
            == "number"@ && take_line(st, p, enter).list_type == ListType::Number,
{
    reveal_strlit("logseq.order-list-type");
    reveal_strlit("number");
    assert("logseq.order-list-type"@ =~= lit_list_type());
    assert("number"@ =~= seq!['n', 'u', 'm', 'b', 'e', 'r']);
    assert(lit_list_type() != lit_id()) by {
        assert(lit_list_type().len() != lit_id().len());
    }
    assert(lit_list_type() != lit_view_mode()) by {
        assert(lit_list_type().len() != lit_view_mode().len());
    }
    if p.attr_values.len() == 0 && p.attr_name == lit_list_type() {
        assert(last_or_empty(p.attr_values).len() == 0);
    }
}

/// A line that is not one of the settings the reader keeps apart.
pub open spec fn is_plain_line(p: LineModel) -> bool {
    p.attr_name != lit_id() && p.attr_name != lit_view_mode() && p.attr_name != lit_list_type()
        && p.attr_name != lit_collapsed()
}

/// The reader's step on one line: empty lines outside code are skipped, a `:LOGBOOK:` drawer is
/// skipped up to `:END` or the next block, and a line that starts a new block ends this one.
pub open spec fn block_step(st: BlockState, s: Seq<char>) -> StepSpec {
    if s.len() == 0 && !st.in_code {
        StepSpec::Next(st)
    } else {
        match evaluate_line_spec(s, st.in_code) {
            None => StepSpec::Halt(st),
            Some(p) => {
                let has_fence = find_from(p.contents, 0, p.contents.len() as int, lit_fence()) is Some;
                let enter = has_fence && !st.in_code;
                let st1 = BlockState {
                    in_code: if has_fence && st.in_code {
                        false
                    } else {
                        st.in_code
                    },
                    ..st
                };
                if p.contents == lit_logbook() {
                    StepSpec::Next(BlockState { in_logbook: true, ..st1 })
                } else if st1.in_logbook && !(p.contents == lit_end() || p.new_block) {
                    StepSpec::Next(st1)
                } else {
                    let st2 = BlockState { in_logbook: false, ..st1 };
                    if st2.contents.len() > 0 && p.new_block && !st2.in_code {
                        StepSpec::Ends(st2)
                    } else {
                        StepSpec::Next(take_line(st2, p, enter))
                    }
                }
            },
        }
    }
}

/// Read lines from `pos` on: the final state, where reading stopped, and whether the lines ran out.
pub open spec fn run_block(lines: Seq<Seq<char>>, pos: int, st: BlockState) -> (BlockState, int, bool)
    decreases lines.len() - pos,
{
    if pos < 0 || pos >= lines.len() {
        (st, pos, true)
    } else {
        match block_step(st, lines[pos]) {
            StepSpec::Next(s2) => run_block(lines, pos + 1, s2),
            StepSpec::Ends(s2) => (s2, pos, false),
            StepSpec::Halt(s2) => (s2, pos + 1, false),
        }
    }
}

/// The hashtags among a block's top-level expressions.
pub open spec fn tags_of(m: Seq<Expr>) -> Seq<Seq<char>>
    decreases m.len(),
{
    if m.len() == 0 {
        Seq::empty()
    } else {
        tags_of(m.drop_last()) + match m.last() {
            Expr::Hashtag(t, _) => seq![t],
            _ => Seq::empty(),
        }
    }
}

/// A block read from a page.
#[derive(Debug, PartialEq, Eq)]
pub struct LogseqRawBlock {
    pub id: String,
    pub parent_idx: Option<usize>,
    pub header_level: u32,
    pub contents: BlockContent,
    pub view_type: ViewType,
    pub this_block_list_type: ListType,
    pub collapsed: bool,
    pub indent: u32,
    pub tags: Vec<String>,
    pub attrs: AttrMap,
}

impl Default for LogseqRawBlock {
    fn default() -> (r: LogseqRawBlock)
        ensures
            r.id@ == Seq::<char>::empty(),
            r.parent_idx is None,
            r.header_level == 0,
            r.contents.string@ == Seq::<char>::empty(),
            r.contents.parsed@.len() == 0,
            r.view_type == ViewType::Inherit,
            r.this_block_list_type == ListType::Default,
            !r.collapsed,
            r.indent == 0,
            r.tags@.len() == 0,
            r.attrs@ == Map::<Seq<char>, Seq<Seq<char>>>::empty(),
    {
        LogseqRawBlock {
            id: String::new(),
            parent_idx: None,
            header_level: 0,
            contents: BlockContent::default(),
            view_type: ViewType::Inherit,
            this_block_list_type: ListType::Default,
            collapsed: false,
            indent: 0,
            tags: Vec::new(),
            attrs: AttrMap::new(),
        }
    }
}

/// What reading one block gave.
#[derive(Debug)]
pub enum RawBlockOutput {
    /// The lines ran out before any content.
    Done,
    /// Nothing but skipped lines before the reader stopped.
    Empty,
    Block(LogseqRawBlock),
}

/// The block that a final reader state stands for, once its text has been parsed.
pub open spec fn block_matches(b: LogseqRawBlock, st: BlockState) -> bool {
    &&& b.id@ == st.id
    &&& b.parent_idx is None
    &&& b.header_level == st.header
    &&& b.view_type == st.view_type
    &&& b.this_block_list_type == st.list_type
    &&& b.collapsed == st.collapsed
    &&& b.indent == st.indent
    &&& b.attrs@ == st.attrs
    &&& b.contents.style == ContentStyle::Logseq
    &&& b.contents.string@ == join_with(st.contents, '\n')
    &&& b.contents.wf()
    &&& texts(b.tags@) == tags_of(b.contents.model())
}

fn last_value(v: Vec<String>) -> (r: String)
    ensures
        r@ == last_or_empty(texts(v@)),
{
    let mut v = v;
    match v.pop() {
        Some(x) => x,
        None => String::new(),
    }
}

fn hashtags(exprs: &Vec<Expression>) -> (r: Vec<String>)
    ensures
        texts(r@) == tags_of(exprs_model(exprs@)),
{
    let mut out: Vec<String> = Vec::new();
    let mut i: usize = 0;
    while i < exprs.len()
        invariant
            i <= exprs@.len(),
            texts(out@) == tags_of(exprs_model(exprs@.take(i as int))),
        decreases exprs@.len() - i,
    {
        proof {
            lemma_exprs_model_index(exprs@.take(i + 1), i as int);
            lemma_model_hashtag(exprs@[i as int]);
            assert(exprs_model(exprs@.take(i + 1)).drop_last() =~= exprs_model(exprs@.take(i as int))) by {
                crate::parse_string::lemma_exprs_model_len(exprs@.take(i + 1));
                crate::parse_string::lemma_exprs_model_len(exprs@.take(i as int));
                assert forall|k: int| 0 <= k < i implies exprs_model(exprs@.take(i + 1))[k]
                    == exprs_model(exprs@.take(i as int))[k] by {
                    lemma_exprs_model_index(exprs@.take(i + 1), k);
                    lemma_exprs_model_index(exprs@.take(i as int), k);
                }
            }
        }
        let ghost before = out@;
        match &exprs[i] {
            Expression::Hashtag(t, _) => {
                out.push(t.clone());
                assert(texts(out@) =~= texts(before) + seq![t@]);
            },
            _ => {
                assert(texts(out@) =~= texts(before) + Seq::<Seq<char>>::empty());
            },
        }
        i = i + 1;
    }
    assert(exprs@.take(exprs@.len() as int) =~= exprs@);
    out
}


/// The result of reading one block from `pos`, and where the next read starts.
pub open spec fn raw_block_spec(lines: Seq<Seq<char>>, pos: int) -> (BlockState, int, bool) {
    run_block(lines, pos, initial_state())
}

fn name_is(name: &String, lit: &str) -> (r: bool)
    ensures
        r == (name@ == lit@),
{
    let c = to_chars(name.as_str());
    chars_equal(&c, lit)
}

proof fn lemma_literals()
    ensures
        "id"@ == lit_id(),
        "view-mode"@ == lit_view_mode(),
        "logseq.order-list-type"@ == lit_list_type(),
        "collapsed"@ == lit_collapsed(),
        ":LOGBOOK:"@ == lit_logbook(),
        ":END"@ == lit_end(),
        "number"@ == seq!['n', 'u', 'm', 'b', 'e', 'r'],
        "true"@ == seq!['t', 'r', 'u', 'e'],
{
    reveal_strlit("id");
    reveal_strlit("view-mode");
    reveal_strlit("logseq.order-list-type");
    reveal_strlit("collapsed");
    reveal_strlit(":LOGBOOK:");
    reveal_strlit(":END");
    reveal_strlit("number");
    reveal_strlit("true");
    assert("id"@ =~= lit_id());
    assert("view-mode"@ =~= lit_view_mode());
    assert("logseq.order-list-type"@ =~= lit_list_type());
    assert("collapsed"@ =~= lit_collapsed());
    assert(":LOGBOOK:"@ =~= lit_logbook());
    assert(":END"@ =~= lit_end());
    assert("number"@ =~= seq!['n', 'u', 'm', 'b', 'e', 'r']);
    assert("true"@ =~= seq!['t', 'r', 'u', 'e']);
}

/// The block reader's state, as it runs.
struct Reader {
    contents: Vec<String>,
    indent: u32,
    id: String,
    view_type: ViewType,
    list_type: ListType,
    header: u32,
    collapsed: bool,
    attrs: AttrMap,
    in_code: bool,
    in_logbook: bool,
}

/// What a step asks of the loop that drives the reader.
enum StepKind {
    Next,
    Ends,
    Halt,
}

impl Reader {
    spec fn model(&self) -> BlockState {
        BlockState {
            contents: texts(self.contents@),
            indent: self.indent,
            id: self.id@,
            view_type: self.view_type,
            list_type: self.list_type,
            header: self.header,
            collapsed: self.collapsed,
            attrs: self.attrs@,
            in_code: self.in_code,
            in_logbook: self.in_logbook,
        }
    }

    fn new() -> (r: Reader)
        ensures
            r.model() == initial_state(),
    {
        let r = Reader {
            contents: Vec::new(),
            indent: 0,
            id: String::new(),
            view_type: ViewType::Inherit,
            list_type: ListType::Default,
            header: 0,
            collapsed: false,
            attrs: AttrMap::new(),
            in_code: false,
            in_logbook: false,
        };
        assert(texts(r.contents@) =~= Seq::<Seq<char>>::empty());
        assert(r.model() =~= initial_state());
        r
    }

    fn take(&mut self, parsed: Line, enter: bool)
        ensures
            final(self).model() == take_line(old(self).model(), parsed.model(), enter),
    {
        proof {
            lemma_literals();
        }
        let ghost p = parsed.model();
        let first = self.contents.len() == 0;
        if first {
            self.indent = parsed.indent;
        }
        if enter {
            self.in_code = true;
        }
        if parsed.header > 0 {
            self.header = parsed.header;
        }
        let Line { contents, attr_name, attr_values, .. } = parsed;
        if name_is(&attr_name, "id") {
            self.id = last_value(attr_values);
        } else if name_is(&attr_name, "view-mode") {
            let has_value = attr_values.len() > 0;
            let value = last_value(attr_values);
            self.view_type = if has_value {
                ViewType::from_name(value.as_str())
            } else {
                ViewType::Inherit
            };
        } else if name_is(&attr_name, "logseq.order-list-type") {
            let value = last_value(attr_values);
            if name_is(&value, "number") {
                self.list_type = ListType::Number;
            }
        } else if name_is(&attr_name, "collapsed") {
            let value = last_value(attr_values);
            self.collapsed = name_is(&value, "true");
        } else {
            if !attr_name.as_str().is_empty() {
                self.attrs.insert(attr_name, attr_values);
            }
            let ghost before = self.contents@;
            self.contents.push(contents);
            assert(texts(self.contents@) =~= texts(before).push(p.contents));
        }
        let ghost want = take_line(old(self).model(), p, enter);
        assert(self.model().contents == want.contents);
        assert(self.model().id == want.id);
        assert(self.model().view_type == want.view_type);
        assert(self.model().list_type == want.list_type);
        assert(self.model().collapsed == want.collapsed);
        assert(self.model().attrs == want.attrs);
        assert(self.model().indent == want.indent);
        assert(self.model().header == want.header);
        assert(self.model().in_code == want.in_code);
    }

    fn step(&mut self, line: &str) -> (r: StepKind)
        ensures
            match block_step(old(self).model(), line@) {
                StepSpec::Next(s2) => r is Next && final(self).model() == s2,
                StepSpec::Ends(s2) => r is Ends && final(self).model() == s2,
                StepSpec::Halt(s2) => r is Halt && final(self).model() == s2,
            },
    {
        proof {
            lemma_literals();
        }
        if line.is_empty() && !self.in_code {
            return StepKind::Next;
        }
        let parsed = match evaluate_line(line, self.in_code) {
            Ok(Some(p)) => p,
            _ => {
                return StepKind::Halt;
            },
        };
        let ghost st = self.model();
        let pc = to_chars(parsed.contents.as_str());
        let fence = vec!['`', '`', '`'];
        proof {
            assert(fence@ =~= lit_fence());
        }
        let has_fence = find(&pc, 0, pc.len(), fence.as_slice()).is_some();
        let enter = has_fence && !self.in_code;
        if has_fence && self.in_code {
            self.in_code = false;
        }
        assert(self.model() == BlockState { in_code: self.in_code, ..st });
        if chars_equal(&pc, ":LOGBOOK:") {
            self.in_logbook = true;
            assert(self.model() =~= BlockState { in_logbook: true, in_code: self.in_code, ..st });
            return StepKind::Next;
        }
        if self.in_logbook {
            if chars_equal(&pc, ":END") || parsed.new_block {
                self.in_logbook = false;
            } else {
                return StepKind::Next;
            }
        }
        assert(self.model() == BlockState { in_logbook: false, in_code: self.in_code, ..st });
        if self.contents.len() > 0 && parsed.new_block && !self.in_code {
            return StepKind::Ends;
        }
        self.take(parsed, enter);
        StepKind::Next
    }
}

/// Read the next block: its lines up to the line that starts the following block, which is left
/// for the next read. Blank lines and `:LOGBOOK:` drawers are skipped, and the settings `id`,
/// `view-mode`, `logseq.order-list-type` and `collapsed` are taken out of the text. The text is
/// then parsed; that is the one way this fails.
pub fn read_raw_block(lines: &mut Lines) -> (r: Result<RawBlockOutput, ContentError>)
    requires
        old(lines).wf(),
    ensures
        final(lines).lines@ == old(lines).lines@,
        final(lines).wf(),
        ({
            let (st, next, done) = raw_block_spec(old(lines).all(), old(lines).pos as int);
            &&& final(lines).pos == next
            &&& if st.contents.len() == 0 {
                if done {
                    r matches Ok(RawBlockOutput::Done)
                } else {
                    r matches Ok(RawBlockOutput::Empty)
                }
            } else {
                match parse_spec(ContentStyle::Logseq, join_with(st.contents, '\n')) {
                    None => r == Err::<RawBlockOutput, ContentError>(ContentError::Unparsable),
                    Some(_) => r matches Ok(RawBlockOutput::Block(b)) && block_matches(b, st),
                }
            }
        }),
{
    let ghost all = lines.all();
    let ghost pos0 = lines.pos as int;
    let mut reader = Reader::new();
    let mut all_done = false;
    let mut stopped = false;
    while !stopped
        invariant
            lines.wf(),
            lines.lines@ == old(lines).lines@,
            all == texts(old(lines).lines@),
            !stopped ==> !all_done,
            stopped ==> run_block(all, pos0, initial_state()) == (
                reader.model(),
                lines.pos as int,
                all_done,
            ),
            !stopped ==> run_block(all, pos0, initial_state()) == run_block(
                all,
                lines.pos as int,
                reader.model(),
            ),
        decreases all.len() - lines.pos, if stopped {
            0int
        } else {
            1int
        },
    {
        let ghost here = lines.pos as int;
        let ghost st0 = reader.model();
        match lines.next_line() {
            None => {
                assert(here >= all.len());
                all_done = true;
                stopped = true;
            },
            Some(line) => {
                proof {
                    assert(line@ == all[here]);
                    assert(run_block(all, here, st0) == match block_step(st0, all[here]) {
                        StepSpec::Next(s2) => run_block(all, here + 1, s2),
                        StepSpec::Ends(s2) => (s2, here, false),
                        StepSpec::Halt(s2) => (s2, here + 1, false),
                    });
                }
                match reader.step(line.as_str()) {
                    StepKind::Next => {},
                    StepKind::Ends => {
                        lines.put_back();
                        stopped = true;
                    },
                    StepKind::Halt => {
                        stopped = true;
                    },
                }
            },
        }
    }
    let Reader { contents: line_contents, indent, id, view_type, list_type, header, collapsed, attrs, .. } = reader;
    if line_contents.len() == 0 {
        if all_done {
            return Ok(RawBlockOutput::Done);
        } else {
            return Ok(RawBlockOutput::Empty);
        }
    }
    let joined = crate::links::join_pieces(&line_contents, '\n');
    let contents = match BlockContent::new_parsed(ContentStyle::Logseq, joined) {
        Ok(c) => c,
        Err(e) => {
            return Err(e);
        },
    };
    let tags = hashtags(&contents.parsed);
    Ok(
        RawBlockOutput::Block(
            LogseqRawBlock {
                id,
                parent_idx: None,
                header_level: header,
                contents,
                view_type,
                this_block_list_type: list_type,
                collapsed,
                indent,
                tags,
                attrs,
            },
        ),
    )
}

/// Reading never goes backwards, and it stays put only when the lines have run out or a block
/// already holds text when the next block starts.
proof fn lemma_run_block_progress(lines: Seq<Seq<char>>, p: int, st: BlockState)
    requires
        0 <= p <= lines.len(),
    ensures
        ({
            let (s2, n, d) = run_block(lines, p, st);
            &&& p <= n <= lines.len()
            &&& n == p ==> ((d && s2 == st) || st.contents.len() > 0)
            &&& d ==> n == lines.len()
        }),
    decreases lines.len() - p,
{
    if p < lines.len() {
        match block_step(st, lines[p]) {
            StepSpec::Next(s3) => {
                lemma_run_block_progress(lines, p + 1, s3);
            },
            _ => {},
        }
    }
}

/// The states of the blocks read one after the other from `pos`, up to the end of the lines or
/// the first block whose text does not parse.
pub open spec fn reads_from(lines: Seq<Seq<char>>, pos: int) -> Seq<BlockState>
    decreases lines.len() - pos,
{
    if pos < 0 || pos > lines.len() {
        Seq::empty()
    } else {
        let (st, next, done) = raw_block_spec(lines, pos);
        if st.contents.len() == 0 && done {
            Seq::empty()
        } else if next <= pos || next > lines.len() {
            Seq::empty()
        } else if st.contents.len() == 0 {
            reads_from(lines, next)
        } else if parse_spec(ContentStyle::Logseq, join_with(st.contents, '\n')) is None {
            seq![st]
        } else {
            seq![st] + reads_from(lines, next)
        }
    }
}

/// The parent of the last of `shape` that has indent `ind`; none if there is no such block.
pub open spec fn last_with_indent(shape: Seq<(u32, Option<usize>)>, ind: u32) -> Option<usize>
    decreases shape.len(),
{
    if shape.len() == 0 {
        None
    } else if shape.last().0 == ind {
        shape.last().1
    } else {
        last_with_indent(shape.drop_last(), ind)
    }
}

/// The parent of a block with indent `ind` that follows the blocks of `shape`, the last of which
/// was read with `cur_indent` and given `cur_parent`: a deeper block is a child of the previous
/// one, a shallower one a sibling of the last block at its level, and one at the same level a
/// sibling of the previous one.
pub open spec fn assign_parent(
    shape: Seq<(u32, Option<usize>)>,
    cur_indent: u32,
    cur_parent: Option<usize>,
    ind: u32,
) -> Option<usize> {
    if ind > cur_indent {
        Some((shape.len() - 1) as usize)
    } else if ind < cur_indent {
        last_with_indent(shape, ind)
    } else {
        cur_parent
    }
}

/// How reading all the blocks goes: the blocks with their parents, a block that does not parse,
/// or a first block that is indented with no block before it to be its parent.
pub enum BlocksOutcome {
    Blocks(Seq<(BlockState, Option<usize>)>),
    Unparsable,
    Orphan,
}

/// Give each of `reads` its parent, after the blocks of `shape`.
pub open spec fn place_blocks(
    shape: Seq<(u32, Option<usize>)>,
    reads: Seq<BlockState>,
    cur_indent: u32,
    cur_parent: Option<usize>,
) -> BlocksOutcome
    decreases reads.len(),
{
    if reads.len() == 0 {
        BlocksOutcome::Blocks(Seq::empty())
    } else if parse_spec(ContentStyle::Logseq, join_with(reads[0].contents, '\n')) is None {
        BlocksOutcome::Unparsable
    } else {
        let ind = reads[0].indent;
        if ind > cur_indent && shape.len() == 0 {
            BlocksOutcome::Orphan
        } else {
            let par = assign_parent(shape, cur_indent, cur_parent, ind);
            match place_blocks(shape.push((ind, par)), reads.drop_first(), ind, par) {
                BlocksOutcome::Blocks(rest) => BlocksOutcome::Blocks(seq![(reads[0], par)] + rest),
                other => other,
            }
        }
    }
}

pub open spec fn shape_of(blocks: Seq<LogseqRawBlock>) -> Seq<(u32, Option<usize>)> {
    blocks.map_values(|b: LogseqRawBlock| (b.indent, b.parent_idx))
}

/// The blocks that reading the rest of the lines appends.
pub open spec fn raw_blocks_spec(blocks: Seq<LogseqRawBlock>, lines: Seq<Seq<char>>, pos: int) -> BlocksOutcome {
    place_blocks(shape_of(blocks), reads_from(lines, pos), 0, None)
}

/// Whether `new` are the blocks that `placed` describes.
pub open spec fn blocks_placed(new: Seq<LogseqRawBlock>, placed: Seq<(BlockState, Option<usize>)>) -> bool {
    &&& new.len() == placed.len()
    &&& forall|k: int|
        0 <= k < new.len() ==> {
            let b = #[trigger] new[k];
            &&& block_matches(
                LogseqRawBlock { parent_idx: None, ..b },
                placed[k].0,
            )
            &&& b.parent_idx == placed[k].1
        }
}


/// The last block before position `k` of `shape` that is indented less than `ind`.
pub open spec fn nearest_below(shape: Seq<(u32, Option<usize>)>, k: int, ind: u32) -> Option<usize>
    decreases k,
{
    if k <= 0 {
        None
    } else if shape[k - 1].0 < ind {
        Some((k - 1) as usize)
    } else {
        nearest_below(shape, k - 1, ind)
    }
}

/// Each block's parent is the last block before it that is indented less.
pub open spec fn parents_nearest(shape: Seq<(u32, Option<usize>)>) -> bool {
    forall|k: int| 0 <= k < shape.len() ==> #[trigger] shape[k].1 == nearest_below(shape, k, shape[k].0)
}

/// Each block is indented at most one level deeper than the one before it; the first, than
/// `ind`.
pub open spec fn steps_in_by_one(reads: Seq<BlockState>, ind: u32) -> bool {
    forall|k: int|
        0 <= k < reads.len() ==> #[trigger] reads[k].indent <= (if k == 0 {
            ind
        } else {
            reads[k - 1].indent
        }) + 1
}

/// The indents and parents of placed blocks.
pub open spec fn placed_shape(placed: Seq<(BlockState, Option<usize>)>) -> Seq<(u32, Option<usize>)> {
    placed.map_values(|p: (BlockState, Option<usize>)| (p.0.indent, p.1))
}

/// What holds of the blocks placed so far while reading goes on at `cur_indent`.
pub open spec fn placing_inv(shape: Seq<(u32, Option<usize>)>, cur_indent: u32, cur_parent: Option<usize>) -> bool {
    &&& parents_nearest(shape)
    &&& shape.len() == 0 ==> cur_indent == 0 && cur_parent is None
    &&& shape.len() > 0 ==> shape.last() == (cur_indent, cur_parent)
    &&& forall|l: u32| l <= cur_indent ==> #[trigger] last_with_indent(shape, l) == nearest_below(shape, shape.len() as int, l)
}

proof fn lemma_nearest_below_prefix(a: Seq<(u32, Option<usize>)>, b: Seq<(u32, Option<usize>)>, k: int, ind: u32)
    requires
        k <= a.len(),
        a.len() <= b.len(),
        forall|j: int| 0 <= j < a.len() ==> a[j] == b[j],
    ensures
        nearest_below(a, k, ind) == nearest_below(b, k, ind),
    decreases k,
{
    if k > 0 {
        lemma_nearest_below_prefix(a, b, k - 1, ind);
    }
}

proof fn lemma_nearest_below_zero(a: Seq<(u32, Option<usize>)>, k: int)
    ensures
        nearest_below(a, k, 0) is None,
    decreases k,
{
    if k > 0 {
        lemma_nearest_below_zero(a, k - 1);
    }
}

proof fn lemma_parent_step(shape: Seq<(u32, Option<usize>)>, cur_indent: u32, cur_parent: Option<usize>, ind: u32)
    requires
        placing_inv(shape, cur_indent, cur_parent),
        ind <= cur_indent + 1,
        !(ind > cur_indent && shape.len() == 0),
    ensures
        placing_inv(
            shape.push((ind, assign_parent(shape, cur_indent, cur_parent, ind))),
            ind,
            assign_parent(shape, cur_indent, cur_parent, ind),
        ),
{
    let par = assign_parent(shape, cur_indent, cur_parent, ind);
    let s2 = shape.push((ind, par));
    let n = shape.len() as int;
    assert(par == nearest_below(shape, n, ind)) by {
        if ind == cur_indent && n > 0 {
            assert(shape[n - 1].1 == nearest_below(shape, n - 1, shape[n - 1].0));
        }
    }
    assert forall|k: int| 0 <= k < s2.len() implies #[trigger] s2[k].1 == nearest_below(s2, k, s2[k].0) by {
        lemma_nearest_below_prefix(shape, s2, if k < n { k } else { n }, s2[k].0);
        if k < n {
            assert(shape[k].1 == nearest_below(shape, k, shape[k].0));
        }
    }
    assert forall|l: u32| l <= ind implies #[trigger] last_with_indent(s2, l) == nearest_below(s2, s2.len() as int, l) by {
        assert(s2.drop_last() =~= shape);
        lemma_nearest_below_prefix(shape, s2, n, l);
        if l < ind {
            assert(last_with_indent(shape, l) == nearest_below(shape, n, l));
        }
    }
}

proof fn lemma_place_nearest(
    shape: Seq<(u32, Option<usize>)>,
    reads: Seq<BlockState>,
    cur_indent: u32,
    cur_parent: Option<usize>,
)
    requires
        placing_inv(shape, cur_indent, cur_parent),
        steps_in_by_one(reads, cur_indent),
    ensures
        place_blocks(shape, reads, cur_indent, cur_parent) matches BlocksOutcome::Blocks(placed)
            ==> parents_nearest(shape + placed_shape(placed)),
    decreases reads.len(),
{
    if reads.len() == 0 {
        assert(shape + placed_shape(Seq::empty()) =~= shape);
    } else if parse_spec(ContentStyle::Logseq, join_with(reads[0].contents, '\n')) is Some {
        let ind = reads[0].indent;
        assert(reads[0].indent <= cur_indent + 1);
        if !(ind > cur_indent && shape.len() == 0) {
            let par = assign_parent(shape, cur_indent, cur_parent, ind);
            let s2 = shape.push((ind, par));
            lemma_parent_step(shape, cur_indent, cur_parent, ind);
            let rest = reads.drop_first();
            assert forall|k: int| 0 <= k < rest.len() implies #[trigger] rest[k].indent <= (if k == 0 {
                ind
            } else {
                rest[k - 1].indent
            }) + 1 by {
                assert(rest[k] == reads[k + 1]);
                assert(reads[k + 1].indent <= reads[k].indent + 1);
            }
            lemma_place_nearest(s2, rest, ind, par);
            match place_blocks(s2, rest, ind, par) {
                BlocksOutcome::Blocks(more) => {
                    assert(placed_shape(seq![(reads[0], par)] + more) =~= seq![(ind, par)] + placed_shape(more));
                    assert(shape + placed_shape(seq![(reads[0], par)] + more) =~= s2 + placed_shape(more));
                },
                _ => {},
            }
        }
    }
}

/// When every block already read is at the top level with no parent, and each block read next
/// is indented at most one level deeper than the one before it, each block that reading
/// appends gets as parent the last block before it that is indented less, if there is one.
pub proof fn law_parent_is_nearest_shallower(blocks: Seq<LogseqRawBlock>, lines: Seq<Seq<char>>, pos: int)
    requires
        forall|j: int| 0 <= j < blocks.len() ==> #[trigger] blocks[j].indent == 0 && blocks[j].parent_idx is None,
        steps_in_by_one(reads_from(lines, pos), 0),
    ensures
        raw_blocks_spec(blocks, lines, pos) matches BlocksOutcome::Blocks(placed) ==> parents_nearest(
            shape_of(blocks) + placed_shape(placed),
        ),
{
    let shape = shape_of(blocks);
    assert forall|k: int| 0 <= k < shape.len() implies #[trigger] shape[k].1 == nearest_below(shape, k, shape[k].0) by {
        assert(shape[k] == (blocks[k].indent, blocks[k].parent_idx));
        lemma_nearest_below_zero(shape, k);
    }
    assert forall|l: u32| l <= 0 implies #[trigger] last_with_indent(shape, l) == nearest_below(shape, shape.len() as int, l) by {
        lemma_nearest_below_zero(shape, shape.len() as int);
        if shape.len() > 0 {
            assert(shape.last() == (blocks.last().indent, blocks.last().parent_idx));
        }
    }
    if shape.len() > 0 {
        assert(shape.last() == (blocks.last().indent, blocks.last().parent_idx));
    }
    lemma_place_nearest(shape, reads_from(lines, pos), 0, None);
}

pub open spec fn prepend_placed(pre: Seq<(BlockState, Option<usize>)>, out: BlocksOutcome) -> BlocksOutcome {
    match out {
        BlocksOutcome::Blocks(rest) => BlocksOutcome::Blocks(pre + rest),
        other => other,
    }
}

proof fn lemma_reads_step(lines: Seq<Seq<char>>, pos: int)
    requires
        0 <= pos <= lines.len(),
    ensures
        ({
            let (st, next, done) = raw_block_spec(lines, pos);
            &&& pos <= next <= lines.len()
            &&& (st.contents.len() == 0 && done) ==> reads_from(lines, pos) == Seq::<BlockState>::empty()
            &&& !(st.contents.len() == 0 && done) ==> next > pos
            &&& (st.contents.len() == 0 && !done) ==> reads_from(lines, pos) == reads_from(lines, next)
            &&& (st.contents.len() > 0 && parse_spec(ContentStyle::Logseq, join_with(st.contents, '\n')) is None)
                ==> reads_from(lines, pos) == seq![st]
            &&& (st.contents.len() > 0 && parse_spec(ContentStyle::Logseq, join_with(st.contents, '\n')) is Some)
                ==> reads_from(lines, pos) == seq![st] + reads_from(lines, next)
        }),
{
    lemma_run_block_progress(lines, pos, initial_state());
}

proof fn lemma_last_with_indent_take(s: Seq<(u32, Option<usize>)>, i: int, ind: u32)
    requires
        0 <= i < s.len(),
    ensures
        last_with_indent(s.take(i + 1), ind) == if s[i].0 == ind {
            s[i].1
        } else {
            last_with_indent(s.take(i), ind)
        },
{
    assert(s.take(i + 1).drop_last() =~= s.take(i));
}

fn parent_at_indent(blocks: &Vec<LogseqRawBlock>, ind: u32) -> (r: Option<usize>)
    ensures
        r == last_with_indent(shape_of(blocks@), ind),
{
    let ghost sh = shape_of(blocks@);
    let mut i = blocks.len();
    assert(sh.take(i as int) =~= sh);
    while i > 0
        invariant
            i <= blocks@.len(),
            sh == shape_of(blocks@),
            last_with_indent(sh, ind) == last_with_indent(sh.take(i as int), ind),
        decreases i,
    {
        proof {
            lemma_last_with_indent_take(sh, i - 1, ind);
        }
        if blocks[i - 1].indent == ind {
            return blocks[i - 1].parent_idx;
        }
        i = i - 1;
    }
    assert(sh.take(0) =~= Seq::<(u32, Option<usize>)>::empty());
    None
}

/// Read all the remaining blocks of a page and append them to `blocks`, each with the index of
/// its parent among `blocks`: a block indented deeper than the previous one is its child, one
/// at the same level shares its parent, and a shallower one shares the parent of the last block
/// at its own level. Fails when a block's text does not parse.
#[verifier::rlimit(40)]
pub fn parse_raw_blocks(blocks: &mut Vec<LogseqRawBlock>, lines: &mut Lines) -> (r: Result<(), ContentError>)
    requires
        old(lines).wf(),
        !(raw_blocks_spec(old(blocks)@, old(lines).all(), old(lines).pos as int) is Orphan),
    ensures
        final(lines).lines@ == old(lines).lines@,
        final(blocks)@.len() >= old(blocks)@.len(),
        final(blocks)@.subrange(0, old(blocks)@.len() as int) == old(blocks)@,
        match raw_blocks_spec(old(blocks)@, old(lines).all(), old(lines).pos as int) {
            BlocksOutcome::Blocks(placed) => r is Ok && blocks_placed(
                final(blocks)@.subrange(old(blocks)@.len() as int, final(blocks)@.len() as int),
                placed,
            ),
            _ => r == Err::<(), ContentError>(ContentError::Unparsable),
        },
{
    let ghost all = lines.all();
    let ghost pos0 = lines.pos as int;
    let ghost start = blocks@.len() as int;
    let ghost mut placed: Seq<(BlockState, Option<usize>)> = Seq::empty();
    let mut current_indent: u32 = 0;
    let mut current_parent: Option<usize> = None;
    assert(blocks@.subrange(0, start) =~= old(blocks)@);
    assert(placed + Seq::<(BlockState, Option<usize>)>::empty() =~= placed);
    loop
        invariant
            lines.wf(),
            lines.lines@ == old(lines).lines@,
            all == texts(old(lines).lines@),
            pos0 == old(lines).pos,
            !(raw_blocks_spec(old(blocks)@, all, pos0) is Orphan),
            start == old(blocks)@.len(),
            blocks@.len() >= start,
            blocks@.subrange(0, start) == old(blocks)@,
            blocks_placed(blocks@.subrange(start, blocks@.len() as int), placed),
            raw_blocks_spec(old(blocks)@, all, pos0) == prepend_placed(
                placed,
                place_blocks(
                    shape_of(blocks@),
                    reads_from(all, lines.pos as int),
                    current_indent,
                    current_parent,
                ),
            ),
        decreases all.len() - lines.pos,
    {
        let ghost here = lines.pos as int;
        proof {
            lemma_reads_step(all, here);
        }
        let out = read_raw_block(lines);
        match out {
            Err(e) => {
                let ghost st = raw_block_spec(all, here).0;
                assert(st.contents.len() > 0);
                assert(reads_from(all, here) == seq![st]);
                assert(seq![st][0] == st);
                assert(place_blocks(shape_of(blocks@), seq![st], current_indent, current_parent)
                    == BlocksOutcome::Unparsable);
                return Err(e);
            },
            Ok(RawBlockOutput::Done) => {
                let ghost st = raw_block_spec(all, here).0;
                assert(st.contents.len() == 0 && raw_block_spec(all, here).2);
                assert(reads_from(all, here) == Seq::<BlockState>::empty());
                assert(place_blocks(shape_of(blocks@), Seq::<BlockState>::empty(), current_indent, current_parent)
                    == BlocksOutcome::Blocks(Seq::empty()));
                assert(placed + Seq::<(BlockState, Option<usize>)>::empty() =~= placed);
                return Ok(());
            },
            Ok(RawBlockOutput::Empty) => {
                assert(reads_from(all, here) == reads_from(all, lines.pos as int));
            },
            Ok(RawBlockOutput::Block(block)) => {
                let ghost st = raw_block_spec(all, here).0;
                let ghost next = lines.pos as int;
                proof {
                    lemma_reads_step(all, here);
                }
                let mut block = block;
                let ind = block.indent;
                let ghost ci = current_indent;
                let ghost cp = current_parent;
                proof {
                    let rd = seq![st] + reads_from(all, next);
                    assert(rd[0] == st);
                    assert(rd.drop_first() =~= reads_from(all, next));
                    assert(shape_of(blocks@).len() == blocks@.len());
                    if ind > ci && blocks@.len() == 0 {
                        assert(place_blocks(shape_of(blocks@), rd, ci, cp) is Orphan);
                        assert(false);
                    }
                }
                if ind > current_indent {
                    current_parent = Some(blocks.len() - 1);
                } else if ind < current_indent {
                    current_parent = parent_at_indent(blocks, ind);
                }
                current_indent = ind;
                assert(current_parent == assign_parent(shape_of(blocks@), ci, cp, ind));
                let ghost before = blocks@;
                let ghost b0 = block;
                block.parent_idx = current_parent;
                assert(LogseqRawBlock { parent_idx: None, ..block } == b0);
                blocks.push(block);
                proof {
                    lemma_place_step(shape_of(before), st, reads_from(all, next), ci, cp);
                    lemma_prepend_assoc(placed, seq![(st, current_parent)], place_blocks(
                        shape_of(before).push((ind, current_parent)),
                        reads_from(all, next),
                        ind,
                        current_parent,
                    ));
                    assert(shape_of(blocks@) =~= shape_of(before).push((ind, current_parent)));
                    lemma_placed_push(before, start, placed, block, st);
                    assert(blocks@ == before.push(block));
                    assert(blocks@.subrange(0, start) =~= before.subrange(0, start));
                    assert(reads_from(all, here) == seq![st] + reads_from(all, next));
                    assert(place_blocks(shape_of(before), reads_from(all, here), ci, cp) == prepend_placed(
                        seq![(st, current_parent)],
                        place_blocks(shape_of(blocks@), reads_from(all, next), ind, current_parent),
                    ));
                    assert(placed + seq![(st, current_parent)] =~= placed.push((st, current_parent)));
                    placed = placed.push((st, current_parent));
                }
            },
        }
    }
}

proof fn lemma_place_step(
    shape: Seq<(u32, Option<usize>)>,
    st: BlockState,
    rest: Seq<BlockState>,
    ci: u32,
    cp: Option<usize>,
)
    requires
        parse_spec(ContentStyle::Logseq, join_with(st.contents, '\n')) is Some,
        !(st.indent > ci && shape.len() == 0),
    ensures
        ({
            let par = assign_parent(shape, ci, cp, st.indent);
            place_blocks(shape, seq![st] + rest, ci, cp) == prepend_placed(
                seq![(st, par)],
                place_blocks(shape.push((st.indent, par)), rest, st.indent, par),
            )
        }),
{
    let r = seq![st] + rest;
    assert(r[0] == st);
    assert(r.drop_first() =~= rest);
}

proof fn lemma_prepend_assoc(
    a: Seq<(BlockState, Option<usize>)>,
    b: Seq<(BlockState, Option<usize>)>,
    o: BlocksOutcome,
)
    ensures
        prepend_placed(a, prepend_placed(b, o)) == prepend_placed(a + b, o),
{
    match o {
        BlocksOutcome::Blocks(rest) => {
            assert(a + (b + rest) =~= (a + b) + rest);
        },
        _ => {},
    }
}

proof fn lemma_placed_push(
    before: Seq<LogseqRawBlock>,
    start: int,
    placed: Seq<(BlockState, Option<usize>)>,
    b: LogseqRawBlock,
    st: BlockState,
)
    requires
        0 <= start <= before.len(),
        blocks_placed(before.subrange(start, before.len() as int), placed),
        block_matches(LogseqRawBlock { parent_idx: None, ..b }, st),
    ensures
        blocks_placed(
            before.push(b).subrange(start, before.len() as int + 1),
            placed.push((st, b.parent_idx)),
        ),
{
    let nb = before.push(b).subrange(start, before.len() as int + 1);
    let ob = before.subrange(start, before.len() as int);
    let np = placed.push((st, b.parent_idx));
    assert forall|k: int| 0 <= k < nb.len() implies {
        let x = #[trigger] nb[k];
        &&& block_matches(LogseqRawBlock { parent_idx: None, ..x }, np[k].0)
        &&& x.parent_idx == np[k].1
    } by {
        if k < nb.len() - 1 {
            assert(nb[k] == ob[k]);
        }
    }
}



fn parent_at_indent_in(shape: &Vec<(u32, Option<usize>)>, ind: u32) -> (r: Option<usize>)
    ensures
        r == last_with_indent(shape@, ind),
{
    let mut i = shape.len();
    assert(shape@.take(i as int) =~= shape@);
    while i > 0
        invariant
            i <= shape@.len(),
            last_with_indent(shape@, ind) == last_with_indent(shape@.take(i as int), ind),
        decreases i,
    {
        proof {
            lemma_last_with_indent_take(shape@, i - 1, ind);
        }
        if shape[i - 1].0 == ind {
            return shape[i - 1].1;
        }
        i = i - 1;
    }
    assert(shape@.take(0) =~= Seq::<(u32, Option<usize>)>::empty());
    None
}

/// Whether reading the rest of the lines after `blocks` would meet a first block that is
/// indented with no block before it to be its parent (see `parse_raw_blocks`). Reads a copy of
/// the cursor.
pub fn blocks_orphaned(blocks: &Vec<LogseqRawBlock>, lines: &Lines) -> (r: bool)
    requires
        lines.wf(),
    ensures
        r == (raw_blocks_spec(blocks@, lines.all(), lines.pos as int) is Orphan),
{
    let mut cursor = Lines { lines: crate::attr_map::clone_strings(&lines.lines), pos: lines.pos };
    let ghost all = lines.all();
    let ghost pos0 = lines.pos as int;
    let mut shape: Vec<(u32, Option<usize>)> = Vec::new();
    let mut k: usize = 0;
    while k < blocks.len()
        invariant
            k <= blocks@.len(),
            shape@ == shape_of(blocks@).take(k as int),
        decreases blocks@.len() - k,
    {
        shape.push((blocks[k].indent, blocks[k].parent_idx));
        assert(shape@ =~= shape_of(blocks@).take(k + 1));
        k = k + 1;
    }
    assert(shape_of(blocks@).take(blocks@.len() as int) =~= shape_of(blocks@));
    proof {
        match place_blocks(shape@, reads_from(all, pos0), 0, None) {
            BlocksOutcome::Blocks(rest) => {
                assert(Seq::<(BlockState, Option<usize>)>::empty() + rest =~= rest);
            },
            _ => {},
        }
    }
    let mut current_indent: u32 = 0;
    let mut current_parent: Option<usize> = None;
    let ghost mut placed: Seq<(BlockState, Option<usize>)> = Seq::empty();
    assert(placed + Seq::<(BlockState, Option<usize>)>::empty() =~= placed);
    loop
        invariant
            cursor.wf(),
            texts(cursor.lines@) == all,
            all == lines.all(),
            pos0 == lines.pos,
            raw_blocks_spec(blocks@, all, pos0) == prepend_placed(
                placed,
                place_blocks(
                    shape@,
                    reads_from(all, cursor.pos as int),
                    current_indent,
                    current_parent,
                ),
            ),
        decreases all.len() - cursor.pos,
    {
        let ghost here = cursor.pos as int;
        proof {
            lemma_reads_step(all, here);
        }
        match read_raw_block(&mut cursor) {
            Err(_) => {
                let ghost st = raw_block_spec(all, here).0;
                assert(reads_from(all, here) == seq![st]);
                assert(seq![st][0] == st);
                assert(place_blocks(shape@, seq![st], current_indent, current_parent)
                    == BlocksOutcome::Unparsable);
                return false;
            },
            Ok(RawBlockOutput::Done) => {
                assert(reads_from(all, here) == Seq::<BlockState>::empty());
                return false;
            },
            Ok(RawBlockOutput::Empty) => {
                assert(reads_from(all, here) == reads_from(all, cursor.pos as int));
            },
            Ok(RawBlockOutput::Block(block)) => {
                let ghost st = raw_block_spec(all, here).0;
                let ghost next = cursor.pos as int;
                let ind = block.indent;
                let ghost ci = current_indent;
                let ghost cp = current_parent;
                let ghost rd = seq![st] + reads_from(all, next);
                proof {
                    assert(rd[0] == st);
                    assert(rd.drop_first() =~= reads_from(all, next));
                }
                if ind > current_indent && shape.len() == 0 {
                    assert(place_blocks(shape@, rd, ci, cp) is Orphan);
                    return true;
                }
                if ind > current_indent {
                    current_parent = Some(shape.len() - 1);
                } else if ind < current_indent {
                    current_parent = parent_at_indent_in(&shape, ind);
                }
                current_indent = ind;
                let ghost sh = shape@;
                shape.push((ind, current_parent));
                proof {
                    lemma_place_step(sh, st, reads_from(all, next), ci, cp);
                    lemma_prepend_assoc(placed, seq![(st, current_parent)], place_blocks(
                        shape@,
                        reads_from(all, next),
                        ind,
                        current_parent,
                    ));
                    assert(placed + seq![(st, current_parent)] =~= placed.push((st, current_parent)));
                    placed = placed.push((st, current_parent));
                }
            },
        }
    }
}

/// Every block of `shape` has its parent before it.
pub open spec fn shape_parents_precede(shape: Seq<(u32, Option<usize>)>) -> bool {
    forall|i: int| 0 <= i < shape.len() ==> ((#[trigger] shape[i]).1 matches Some(p) ==> p < i)
}

proof fn lemma_last_with_indent_bound(shape: Seq<(u32, Option<usize>)>, ind: u32)
    requires
        shape_parents_precede(shape),
    ensures
        last_with_indent(shape, ind) matches Some(p) ==> p < shape.len(),
    decreases shape.len(),
{
    if shape.len() > 0 && shape.last().0 != ind {
        assert forall|i: int| 0 <= i < shape.drop_last().len() implies ((#[trigger] shape.drop_last()[i]).1 matches Some(p) ==> p < i) by {
            assert(shape.drop_last()[i] == shape[i]);
        }
        lemma_last_with_indent_bound(shape.drop_last(), ind);
    } else if shape.len() > 0 {
        assert(shape[shape.len() - 1] == shape.last());
    }
}

/// Placing blocks keeps parents before children: every block that reading places gets a parent
/// that comes before it, when the blocks before it already have theirs before them.
pub proof fn lemma_placed_parents_precede(
    shape: Seq<(u32, Option<usize>)>,
    reads: Seq<BlockState>,
    ci: u32,
    cp: Option<usize>,
)
    requires
        shape_parents_precede(shape),
        cp matches Some(p) ==> p < shape.len(),
    ensures
        place_blocks(shape, reads, ci, cp) matches BlocksOutcome::Blocks(placed) ==> forall|k: int|
            0 <= k < placed.len() ==> ((#[trigger] placed[k]).1 matches Some(p) ==> p < shape.len() + k),
    decreases reads.len(),
{
    if reads.len() > 0 && parse_spec(ContentStyle::Logseq, join_with(reads[0].contents, '\n')) is Some {
        let ind = reads[0].indent;
        if !(ind > ci && shape.len() == 0) {
            let par = assign_parent(shape, ci, cp, ind);
            lemma_last_with_indent_bound(shape, ind);
            let sh2 = shape.push((ind, par));
            assert forall|i: int| 0 <= i < sh2.len() implies ((#[trigger] sh2[i]).1 matches Some(p) ==> p < i) by {
                if i < shape.len() {
                    assert(sh2[i] == shape[i]);
                }
            }
            lemma_placed_parents_precede(sh2, reads.drop_first(), ind, par);
            match place_blocks(sh2, reads.drop_first(), ind, par) {
                BlocksOutcome::Blocks(rest) => {
                    let placed = seq![(reads[0], par)] + rest;
                    assert forall|k: int| 0 <= k < placed.len() implies ((#[trigger] placed[k]).1 matches Some(p) ==> p < shape.len() + k) by {
                        if k > 0 {
                            assert(placed[k] == rest[k - 1]);
                        }
                    }
                },
                _ => {},
            }
        }
    }
}

} // verus!
