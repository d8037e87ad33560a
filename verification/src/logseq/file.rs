//! One Logseq page file: its header attributes, the blocks that show them, its content blocks
//! and its title.
use vstd::prelude::*;

use crate::attr_map::{texts, AttrMap};
use crate::chars::{push_char, to_chars};
use crate::content::{BlockContent, ContentError};
use crate::logseq::blocks::{
    blocks_orphaned, parse_raw_blocks, raw_blocks_spec, shape_of, BlocksOutcome, Lines,
    LogseqRawBlock,
};
use crate::logseq::page_header::{attr_views, page_header_spec, parse_page_header};
use crate::parse_string::{parse_spec, ContentStyle};

verus! {

/// What `str::to_lowercase` gives: each character mapped to its Unicode lowercase form.
pub uninterp spec fn lowercase_of(s: Seq<char>) -> Seq<char>;

/// `str::to_lowercase`. The contract names the result and claims nothing more of it.
#[verifier::external_body]
pub(crate) fn to_lowercase(s: &str) -> (r: String)
    ensures
        r@ == lowercase_of(s@),
{
    s.to_lowercase()
}

/// What `std::path::Path::file_stem` gives for a path: the file name without its extension.
pub uninterp spec fn file_stem_of(path: Seq<char>) -> Option<Seq<char>>;

/// `std::path::Path::file_stem`, on a path given as text. The contract names the result and
/// claims nothing more of it.
#[verifier::external_body]
fn file_stem(path: &str) -> (r: Option<String>)
    ensures
        match r {
            Some(s) => file_stem_of(path@) == Some(s@),
            None => file_stem_of(path@) is None,
        },
{
    match std::path::Path::new(path).file_stem() {
        Some(s) => Some(s.to_string_lossy().into_owned()),
        None => None,
    }
}

/// What `urlencoding::decode` gives: the text with its `%xx` escapes decoded, or nothing where
/// the decoded bytes are not UTF-8.
pub uninterp spec fn url_decoded(s: Seq<char>) -> Option<Seq<char>>;

/// `urlencoding::decode`. Besides naming the result, the contract states what its source shows
/// for a text without `%`: it comes back unchanged.
#[verifier::external_body]
fn url_decode(s: &str) -> (r: Option<String>)
    ensures
        match r {
            Some(d) => url_decoded(s@) == Some(d@) && (!s@.contains('%') ==> d@ == s@),
            None => url_decoded(s@) is None && s@.contains('%'),
        },
{
    match urlencoding::decode(s) {
        Ok(d) => Some(d.into_owned()),
        Err(_) => None,
    }
}

/// `s` with every `_` replaced by `-`.
pub open spec fn dashes_for_underscores(s: Seq<char>) -> Seq<char> {
    s.map_values(
        |c: char|
            if c == '_' {
                '-'
            } else {
                c
            },
    )
}

fn replace_underscores(s: &str) -> (r: String)
    ensures
        r@ == dashes_for_underscores(s@),
{
    let v = to_chars(s);
    let mut out = String::new();
    let mut i: usize = 0;
    while i < v.len()
        invariant
            i <= v@.len(),
            v@ == s@,
            out@ == dashes_for_underscores(s@).take(i as int),
        decreases v@.len() - i,
    {
        let c = if v[i] == '_' {
            '-'
        } else {
            v[i]
        };
        push_char(&mut out, c);
        assert(out@ =~= dashes_for_underscores(s@).take(i + 1));
        i = i + 1;
    }
    assert(dashes_for_underscores(s@).take(v@.len() as int) =~= dashes_for_underscores(s@));
    out
}

/// The pieces joined with `sep` between each two of them.
pub open spec fn join_str(parts: Seq<Seq<char>>, sep: Seq<char>) -> Seq<char>
    decreases parts.len(),
{
    if parts.len() == 0 {
        Seq::empty()
    } else if parts.len() == 1 {
        parts[0]
    } else {
        join_str(parts.drop_last(), sep) + sep + parts.last()
    }
}

pub(crate) fn join_texts(parts: &Vec<String>, sep: &str) -> (r: String)
    ensures
        r@ == join_str(texts(parts@), sep@),
{
    let mut out = String::new();
    let mut i: usize = 0;
    while i < parts.len()
        invariant
            i <= parts@.len(),
            out@ == join_str(texts(parts@).take(i as int), sep@),
        decreases parts@.len() - i,
    {
        proof {
            assert(texts(parts@).take(i + 1).drop_last() =~= texts(parts@).take(i as int));
        }
        if i > 0 {
            out.append(sep);
        } else {
            assert(out@ =~= Seq::<char>::empty());
        }
        out.append(parts[i].as_str());
        assert(out@ =~= join_str(texts(parts@).take(i + 1), sep@));
        i = i + 1;
    }
    assert(texts(parts@).take(parts@.len() as int) =~= texts(parts@));
    out
}

pub open spec fn lit_id() -> Seq<char> {
    seq!['i', 'd']
}

pub open spec fn lit_title() -> Seq<char> {
    seq!['t', 'i', 't', 'l', 'e']
}

/// The text of the block that shows one header attribute: `name:: v1, v2, ...`.
pub open spec fn attr_block_text(name: Seq<char>, values: Seq<Seq<char>>) -> Seq<char> {
    name + seq![':', ':', ' '] + join_str(values, seq![',', ' '])
}

/// The texts of the blocks that show the page's header attributes, all but `id` and `title`.
pub open spec fn attr_block_texts(list: Seq<(Seq<char>, Seq<Seq<char>>)>) -> Seq<Seq<char>>
    decreases list.len(),
{
    if list.len() == 0 {
        Seq::empty()
    } else {
        let (n, v) = list.last();
        attr_block_texts(list.drop_last()) + if n == lit_id() || n == lit_title() {
            Seq::empty()
        } else {
            seq![attr_block_text(n, v)]
        }
    }
}

/// The page's attributes, by lowercased name; a later attribute replaces an earlier one.
pub open spec fn page_attr_map(list: Seq<(Seq<char>, Seq<Seq<char>>)>) -> Map<
    Seq<char>,
    Seq<Seq<char>>,
>
    decreases list.len(),
{
    if list.len() == 0 {
        Map::empty()
    } else {
        page_attr_map(list.drop_last()).insert(lowercase_of(list.last().0), list.last().1)
    }
}

/// The page's title from its file name: the file stem, URL-decoded where that works, with
/// journal dates written with dashes.
pub open spec fn title_from_stem(stem: Seq<char>, is_journal: bool) -> Seq<char> {
    let decoded = match url_decoded(stem) {
        Some(d) => d,
        None => stem,
    };
    if is_journal {
        dashes_for_underscores(decoded)
    } else {
        decoded
    }
}

/// Whether all the texts parse as Logseq content.
pub open spec fn all_parse(ts: Seq<Seq<char>>) -> bool {
    forall|i: int| 0 <= i < ts.len() ==> parse_spec(ContentStyle::Logseq, #[trigger] ts[i]) is Some
}

/// A block made from a header attribute: the parsed text, and nothing else set.
pub open spec fn is_attr_block(b: LogseqRawBlock, text: Seq<char>) -> bool {
    &&& b.contents.string@ == text
    &&& b.contents.style == ContentStyle::Logseq
    &&& b.contents.wf()
    &&& b.id@ == Seq::<char>::empty()
    &&& b.parent_idx is None
    &&& b.header_level == 0
    &&& b.indent == 0
    &&& !b.collapsed
    &&& b.view_type == crate::graph::ViewType::Inherit
    &&& b.this_block_list_type == crate::graph::ListType::Default
    &&& b.tags@.len() == 0
    &&& b.attrs@ == Map::<Seq<char>, Seq<Seq<char>>>::empty()
}

/// The shape that `n` attribute blocks give the blocks read after them.
pub open spec fn attr_shape(n: nat) -> Seq<(u32, Option<usize>)> {
    Seq::new(n, |i: int| (0u32, None::<usize>))
}

/// The inputs on which reading a page can be carried out: the file has a stem, and the content
/// does not start with an indented block that has no block before it.
pub open spec fn page_readable(filename: Seq<char>, lines: Seq<Seq<char>>, pos: int) -> bool {
    let (list, next) = page_header_spec(lines, pos);
    let ts = attr_block_texts(list);
    &&& file_stem_of(filename) is Some
    &&& all_parse(ts) ==> !(place_blocks_after_attrs(ts.len(), lines, next) is Orphan)
}

pub open spec fn place_blocks_after_attrs(n: nat, lines: Seq<Seq<char>>, next: int) -> BlocksOutcome {
    crate::logseq::blocks::place_blocks(
        attr_shape(n),
        crate::logseq::blocks::reads_from(lines, next),
        0,
        None,
    )
}

proof fn lemma_attr_shape(blocks: Seq<LogseqRawBlock>)
    requires
        forall|i: int| 0 <= i < blocks.len() ==> (#[trigger] blocks[i]).indent == 0 && blocks[i].parent_idx is None,
    ensures
        shape_of(blocks) == attr_shape(blocks.len()),
{
    assert(shape_of(blocks) =~= attr_shape(blocks.len()));
}

proof fn lemma_literals()
    ensures
        "id"@ == lit_id(),
        "title"@ == lit_title(),
        ":: "@ == seq![':', ':', ' '],
        ", "@ == seq![',', ' '],
{
    reveal_strlit("id");
    reveal_strlit("title");
    reveal_strlit(":: ");
    reveal_strlit(", ");
    assert("id"@ =~= lit_id());
    assert("title"@ =~= lit_title());
    assert(":: "@ =~= seq![':', ':', ' ']);
    assert(", "@ =~= seq![',', ' ']);
}

fn is_id_or_title(name: &String) -> (r: bool)
    ensures
        r == (name@ == lit_id() || name@ == lit_title()),
{
    proof {
        lemma_literals();
    }
    let c = to_chars(name.as_str());
    crate::chars::chars_equal(&c, "id") || crate::chars::chars_equal(&c, "title")
}

/// The texts of the blocks that show the header attributes.
fn attr_texts(list: &Vec<(String, Vec<String>)>) -> (r: Vec<String>)
    ensures
        texts(r@) == attr_block_texts(attr_views(list@)),
{
    proof {
        lemma_literals();
    }
    let mut out: Vec<String> = Vec::new();
    let mut i: usize = 0;
    while i < list.len()
        invariant
            i <= list@.len(),
            texts(out@) == attr_block_texts(attr_views(list@).take(i as int)),
            ":: "@ == seq![':', ':', ' '],
            ", "@ == seq![',', ' '],
        decreases list@.len() - i,
    {
        proof {
            assert(attr_views(list@).take(i + 1).drop_last() =~= attr_views(list@).take(i as int));
        }
        let ghost before = texts(out@);
        if !is_id_or_title(&list[i].0) {
            let mut t = list[i].0.clone();
            t.append(":: ");
            let joined = join_texts(&list[i].1, ", ");
            t.append(joined.as_str());
            out.push(t);
            assert(texts(out@) =~= before + seq![
                attr_block_text(list@[i as int].0@, texts(list@[i as int].1@)),
            ]);
        } else {
            assert(texts(out@) =~= before + Seq::<Seq<char>>::empty());
        }
        assert(texts(out@) == attr_block_texts(attr_views(list@).take(i + 1)));
        i = i + 1;
    }
    assert(attr_views(list@).take(list@.len() as int) =~= attr_views(list@));
    out
}

/// The page's attributes by lowercased name.
fn attr_map_of(list: &Vec<(String, Vec<String>)>) -> (r: AttrMap)
    ensures
        r@ == page_attr_map(attr_views(list@)),
{
    let mut m = AttrMap::new();
    let mut i: usize = 0;
    while i < list.len()
        invariant
            i <= list@.len(),
            m@ == page_attr_map(attr_views(list@).take(i as int)),
        decreases list@.len() - i,
    {
        proof {
            assert(attr_views(list@).take(i + 1).drop_last() =~= attr_views(list@).take(i as int));
        }
        let name = to_lowercase(list[i].0.as_str());
        let values = crate::attr_map::clone_strings(&list[i].1);
        m.insert(name, values);
        i = i + 1;
    }
    assert(attr_views(list@).take(list@.len() as int) =~= attr_views(list@));
    m
}

/// The blocks that show the header attributes, one per text.
fn attr_blocks(ts: &Vec<String>) -> (r: Result<Vec<LogseqRawBlock>, ContentError>)
    ensures
        all_parse(texts(ts@)) ==> (r matches Ok(bs) && bs@.len() == ts@.len() && forall|i: int|
            0 <= i < ts@.len() ==> is_attr_block(#[trigger] bs@[i], ts@[i]@)),
        !all_parse(texts(ts@)) ==> r == Err::<Vec<LogseqRawBlock>, ContentError>(
            ContentError::Unparsable,
        ),
{
    let mut blocks: Vec<LogseqRawBlock> = Vec::new();
    let mut i: usize = 0;
    while i < ts.len()
        invariant
            i <= ts@.len(),
            blocks@.len() == i,
            forall|k: int| 0 <= k < i ==> is_attr_block(#[trigger] blocks@[k], ts@[k]@),
            forall|k: int| 0 <= k < i ==> parse_spec(ContentStyle::Logseq, #[trigger] ts@[k]@) is Some,
        decreases ts@.len() - i,
    {
        match BlockContent::new_parsed(ContentStyle::Logseq, ts[i].clone()) {
            Ok(c) => {
                let mut b = LogseqRawBlock::default();
                b.contents = c;
                blocks.push(b);
            },
            Err(e) => {
                assert(texts(ts@)[i as int] == ts@[i as int]@);
                return Err(e);
            },
        }
        i = i + 1;
    }
    assert forall|k: int| 0 <= k < texts(ts@).len() implies parse_spec(
        ContentStyle::Logseq,
        #[trigger] texts(ts@)[k],
    ) is Some by {
        assert(texts(ts@)[k] == ts@[k]@);
    }
    Ok(blocks)
}

/// The page's attributes once its title is known: the header's own `title` if it has one,
/// otherwise the title taken from the file name.
pub open spec fn attrs_with_title(attrs: Map<Seq<char>, Seq<Seq<char>>>, title: Seq<char>) -> Map<
    Seq<char>,
    Seq<Seq<char>>,
> {
    if attrs.contains_key(lit_title()) {
        attrs
    } else {
        attrs.insert(lit_title(), seq![title])
    }
}

/// What reading a page file gives (see `parse_logseq_file`).
pub open spec fn page_file_result(
    filename: Seq<char>,
    lines: Seq<Seq<char>>,
    pos: int,
    is_journal: bool,
    r: Result<(AttrMap, Vec<LogseqRawBlock>), ContentError>,
) -> bool {
    let (list, next) = page_header_spec(lines, pos);
    let ts = attr_block_texts(list);
    let title = title_from_stem(file_stem_of(filename)->0, is_journal);
    if !all_parse(ts) {
        r == Err::<(AttrMap, Vec<LogseqRawBlock>), ContentError>(ContentError::Unparsable)
    } else {
        match place_blocks_after_attrs(ts.len(), lines, next) {
            BlocksOutcome::Blocks(placed) => r matches Ok((a, bs)) && a@ == attrs_with_title(
                page_attr_map(list),
                title,
            ) && bs@.len() == ts.len() + placed.len() && (forall|i: int|
                0 <= i < ts.len() ==> is_attr_block(#[trigger] bs@[i], ts[i]))
                && crate::logseq::blocks::blocks_placed(
                bs@.subrange(ts.len() as int, bs@.len() as int),
                placed,
            ),
            _ => r == Err::<(AttrMap, Vec<LogseqRawBlock>), ContentError>(ContentError::Unparsable),
        }
    }
}

/// Read a page file: its header attributes (by lowercased name, with a title from the file name
/// when the header gives none), then a block for each header attribute but `id` and `title`,
/// then the page's own blocks. Fails when the text of a block does not parse.
pub fn parse_logseq_file(filename: &str, lines: &mut Lines, is_journal: bool) -> (r: Result<
    (AttrMap, Vec<LogseqRawBlock>),
    ContentError,
>)
    requires
        old(lines).wf(),
        page_readable(filename@, old(lines).all(), old(lines).pos as int),
    ensures
        final(lines).lines@ == old(lines).lines@,
        page_file_result(filename@, old(lines).all(), old(lines).pos as int, is_journal, r),
{
    proof {
        lemma_literals();
    }
    let ghost all = lines.all();
    let list = parse_page_header(lines);
    let ghost next = lines.pos as int;
    let ts = attr_texts(&list);
    let mut blocks = match attr_blocks(&ts) {
        Ok(bs) => bs,
        Err(e) => {
            return Err(e);
        },
    };
    let ghost prefix = blocks@;
    proof {
        lemma_attr_shape(blocks@);
    }
    match parse_raw_blocks(&mut blocks, lines) {
        Ok(()) => {},
        Err(e) => {
            return Err(e);
        },
    }
    assert forall|i: int| 0 <= i < ts@.len() implies is_attr_block(
        #[trigger] blocks@[i],
        texts(ts@)[i],
    ) by {
        assert(blocks@.subrange(0, prefix.len() as int)[i] == blocks@[i]);
    }
    let mut attrs = attr_map_of(&list);
    let has_title = attrs.contains_key("title");
    let stem = match file_stem(filename) {
        Some(s) => s,
        None => {
            return Err(ContentError::Unparsable);
        },
    };
    let decoded = match url_decode(stem.as_str()) {
        Some(d) => d,
        None => stem,
    };
    let title = if is_journal {
        replace_underscores(decoded.as_str())
    } else {
        decoded
    };
    if !has_title {
        let mut v: Vec<String> = Vec::new();
        v.push(title);
        assert(texts(v@) =~= seq![title@]);
        attrs.insert("title".to_owned(), v);
    }
    Ok((attrs, blocks))
}

/// Read a page file where that can be done: `None` when the file name has no stem or the
/// content would start with an indented block that has nothing to be its parent; otherwise
/// what `parse_logseq_file` gives.
pub fn read_logseq_page(filename: &str, lines: &mut Lines, is_journal: bool) -> (r: Option<
    Result<(AttrMap, Vec<LogseqRawBlock>), ContentError>,
>)
    requires
        old(lines).wf(),
    ensures
        final(lines).lines@ == old(lines).lines@,
        page_readable(filename@, old(lines).all(), old(lines).pos as int) <==> r is Some,
        r is None ==> final(lines).pos == old(lines).pos,
        r matches Some(res) ==> page_file_result(
            filename@,
            old(lines).all(),
            old(lines).pos as int,
            is_journal,
            res,
        ),
{
    let stem = file_stem(filename);
    if stem.is_none() {
        return None;
    }
    let mut probe = Lines { lines: crate::attr_map::clone_strings(&lines.lines), pos: lines.pos };
    let list = parse_page_header(&mut probe);
    let ts = attr_texts(&list);
    match attr_blocks(&ts) {
        Ok(bs) => {
            proof {
                lemma_attr_shape(bs@);
            }
            if blocks_orphaned(&bs, &probe) {
                return None;
            }
        },
        Err(_) => {},
    }
    Some(parse_logseq_file(filename, lines, is_journal))
}

} // verus!
