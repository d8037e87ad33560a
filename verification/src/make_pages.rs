//! Names and places of the output pages, and the heading levels they are rendered with.
use vstd::prelude::*;

use crate::chars::{is_whitespace, is_ws, push_char, to_chars};
use crate::attr_map::texts;
use crate::graph::{Block, BlockInclude, ParsedPage};
use crate::parse_string::Expression;
use crate::chars::chars_equal;
use crate::logseq::file::{join_str, lowercase_of, to_lowercase};

verus! {

/// What `char::is_alphabetic` says of a character.
pub uninterp spec fn alphabetic(c: char) -> bool;

/// `char::is_alphabetic`. The contract names the result and, as its documentation says, counts
/// among the ASCII characters exactly the letters as alphabetic.
#[verifier::external_body]
fn is_alphabetic(c: char) -> (r: bool)
    ensures
        r == alphabetic(c),
        crate::edn_scan::is_ascii(c) ==> (r <==> ('a' <= c <= 'z' || 'A' <= c <= 'Z')),
{
    c.is_alphabetic()
}

/// What `char::to_lowercase` gives for a character: its lowercase mapping, one or more
/// characters.
pub uninterp spec fn lowercase_char(c: char) -> Seq<char>;

/// `char::to_lowercase`, collected. Besides naming the result, the contract states what its
/// documentation gives for ASCII: an uppercase letter becomes its lowercase letter, and any
/// other ASCII character stays as it is.
#[verifier::external_body]
fn to_lowercase_char(c: char) -> (r: Vec<char>)
    ensures
        r@ == lowercase_char(c),
        'A' <= c <= 'Z' ==> r@ == seq![((c as u32) + 32) as char],
        (c as u32) < 128 && !('A' <= c <= 'Z') ==> r@ == seq![c],
{
    c.to_lowercase().collect::<Vec<char>>()
}

/// The characters that separate the words of a title.
pub open spec fn is_slug_separator(c: char) -> bool {
    is_ws(c) || c == '/' || c == '-' || c == ':'
}

/// What a character of a word contributes to a slug: its lowercase form if it is a letter or an
/// ASCII digit, nothing otherwise. For ASCII this is decided here, as `char::is_alphabetic` and
/// `char::to_lowercase` document it: the letters, lowercased, and the digits.
pub open spec fn slug_char(c: char) -> Seq<char> {
    if crate::edn_scan::is_ascii(c) {
        if 'A' <= c <= 'Z' {
            seq![((c as u32) + 32) as char]
        } else if ('a' <= c <= 'z') || ('0' <= c <= '9') {
            seq![c]
        } else {
            Seq::empty()
        }
    } else if alphabetic(c) {
        lowercase_char(c)
    } else {
        Seq::empty()
    }
}

/// The finished words of a title's slug, and the word being built.
pub open spec fn slug_words(s: Seq<char>) -> (Seq<Seq<char>>, Seq<char>)
    decreases s.len(),
{
    if s.len() == 0 {
        (Seq::empty(), Seq::empty())
    } else {
        let (ws, cur) = slug_words(s.drop_last());
        let c = s.last();
        if is_slug_separator(c) {
            (
                if cur.len() > 0 {
                    ws.push(cur)
                } else {
                    ws
                },
                Seq::empty(),
            )
        } else {
            (ws, cur + slug_char(c))
        }
    }
}

/// The slug of a title: its words, split at whitespace, `/`, `-` and `:`, each reduced to its
/// lowercased letters and digits, the empty ones dropped, joined with `_`.
pub open spec fn slug_spec(s: Seq<char>) -> Seq<char> {
    let (ws, cur) = slug_words(s);
    join_str(
        if cur.len() > 0 {
            ws.push(cur)
        } else {
            ws
        },
        seq!['_'],
    )
}

fn texts_of(v: &Vec<Vec<char>>) -> (r: Vec<String>)
    ensures
        crate::attr_map::texts(r@) == v@.map_values(|w: Vec<char>| w@),
{
    let mut out: Vec<String> = Vec::new();
    let mut i: usize = 0;
    while i < v.len()
        invariant
            i <= v@.len(),
            crate::attr_map::texts(out@) == v@.map_values(|w: Vec<char>| w@).take(i as int),
        decreases v@.len() - i,
    {
        let ghost w = v@[i as int];
        let s = crate::chars::string_of(&v[i], 0, v[i].len());
        assert(w@.subrange(0, w@.len() as int) =~= w@);
        let ghost before = out@;
        out.push(s);
        assert(crate::attr_map::texts(out@) =~= crate::attr_map::texts(before).push(w@));
        assert(crate::attr_map::texts(out@) =~= v@.map_values(|w: Vec<char>| w@).take(i + 1));
        i = i + 1;
    }
    assert(v@.map_values(|w: Vec<char>| w@).take(v@.len() as int) =~= v@.map_values(|w: Vec<char>| w@));
    out
}

/// The slug of a title, for its URL and file name.
pub fn title_to_slug(s: &str) -> (r: String)
    ensures
        r@ == slug_spec(s@),
{
    let chars = to_chars(s);
    let mut words: Vec<Vec<char>> = Vec::new();
    let mut cur: Vec<char> = Vec::new();
    let mut i: usize = 0;
    while i < chars.len()
        invariant
            i <= chars@.len(),
            chars@ == s@,
            slug_words(chars@.take(i as int)) == (words@.map_values(|w: Vec<char>| w@), cur@),
        decreases chars@.len() - i,
    {
        let c = chars[i];
        proof {
            assert(chars@.take(i + 1).drop_last() =~= chars@.take(i as int));
        }
        let ghost ws0 = words@.map_values(|w: Vec<char>| w@);
        let ghost cur0 = cur@;
        if is_whitespace(c) || c == '/' || c == '-' || c == ':' {
            if cur.len() > 0 {
                let done = cur;
                words.push(done);
                cur = Vec::new();
                assert(words@.map_values(|w: Vec<char>| w@) =~= ws0.push(cur0));
            } else {
                cur = Vec::new();
            }
        } else if ('a' <= c && c <= 'z') || ('0' <= c && c <= '9') {
            cur.push(c);
        } else if ('A' <= c && c <= 'Z') || (!(c < '\u{80}') && is_alphabetic(c)) {
            let lower = to_lowercase_char(c);
            let mut k: usize = 0;
            while k < lower.len()
                invariant
                    k <= lower@.len(),
                    cur@ == cur0 + lower@.take(k as int),
                decreases lower@.len() - k,
            {
                cur.push(lower[k]);
                assert(cur@ =~= cur0 + lower@.take(k + 1));
                k = k + 1;
            }
            assert(lower@.take(lower@.len() as int) =~= lower@);
        } else {
            assert(cur@ =~= cur0 + Seq::<char>::empty());
        }
        i = i + 1;
    }
    assert(chars@.take(chars@.len() as int) =~= chars@);
    let ghost ws = words@.map_values(|w: Vec<char>| w@);
    if cur.len() > 0 {
        let ghost cur0 = cur@;
        words.push(cur);
        assert(words@.map_values(|w: Vec<char>| w@) =~= ws.push(cur0));
    }
    let parts = texts_of(&words);
    proof {
        reveal_strlit("_");
        assert("_"@ =~= seq!['_']);
    }
    crate::logseq::file::join_texts(&parts, "_")
}

/// `base/filename`, where the base is the page's own if it has one, the default otherwise.
pub open spec fn path_in(page_base: Seq<char>, default_base: Seq<char>, filename: Seq<char>) -> Seq<char> {
    (if page_base.len() == 0 {
        default_base
    } else {
        page_base
    }) + seq!['/'] + filename
}

/// The path (or URL) of a file under the page's base, or under the default base if the page
/// has none.
pub fn create_path(page_base: &str, default_base: &str, filename: &str) -> (r: String)
    ensures
        r@ == path_in(page_base@, default_base@, filename@),
{
    let mut out = String::new();
    if page_base.is_empty() {
        out.append(default_base);
    } else {
        out.append(page_base);
    }
    push_char(&mut out, '/');
    out.append(filename);
    out
}

/// The file name of a rendered page: the one the script set, else the URL name with the
/// configured extension.
pub open spec fn output_filename(path_name: Seq<char>, url_name: Seq<char>, extension: Seq<char>) -> Seq<char> {
    if path_name.len() == 0 {
        url_name + seq!['.'] + extension
    } else {
        path_name
    }
}

pub fn page_filename(path_name: &str, url_name: &str, extension: &str) -> (r: String)
    ensures
        r@ == output_filename(path_name@, url_name@, extension@),
{
    let mut out = String::new();
    if path_name.is_empty() {
        out.append(url_name);
        push_char(&mut out, '.');
        out.append(extension);
    } else {
        out.append(path_name);
    }
    out
}

/// Whether a block's heading counts when finding a page's highest heading: it has one, and the
/// block is rendered.
pub open spec fn heading_counts(b: Block) -> bool {
    b.heading != 0 && match b.include_type {
        BlockInclude::JustBlock => true,
        BlockInclude::AndChildren => true,
        BlockInclude::OnlyChildren => false,
        BlockInclude::Exclude => false,
        BlockInclude::IfChildrenPresent => b.children@.len() != 0,
    }
}

/// The smallest heading level among the blocks whose heading counts, if any.
pub open spec fn lowest_heading(blocks: Seq<Block>) -> Option<usize>
    decreases blocks.len(),
{
    if blocks.len() == 0 {
        None
    } else {
        let rest = lowest_heading(blocks.drop_last());
        let b = blocks.last();
        if heading_counts(b) {
            match rest {
                Some(h) => if b.heading < h {
                    Some(b.heading)
                } else {
                    Some(h)
                },
                None => Some(b.heading),
            }
        } else {
            rest
        }
    }
}

/// How many levels a page's Markdown headings move in the HTML: the page's top heading level
/// makes `#` an `h{top}`, and with promotion the page's highest heading becomes that level.
pub open spec fn heading_delta_spec(top_header_level: usize, promote_headers: bool, blocks: Seq<Block>) -> int {
    let h = top_header_level - 1;
    let m = if promote_headers {
        match lowest_heading(blocks) {
            Some(l) => l - 1,
            None => 0,
        }
    } else {
        0
    };
    h - m
}

/// Headings and the top level are small enough to compute with.
pub open spec fn headings_small(top_header_level: usize, blocks: Seq<Block>) -> bool {
    &&& top_header_level < 0x4000_0000
    &&& forall|i: int| 0 <= i < blocks.len() ==> (#[trigger] blocks[i]).heading < 0x4000_0000
}

pub fn heading_delta(top_header_level: usize, promote_headers: bool, blocks: &Vec<Block>) -> (r: isize)
    requires
        headings_small(top_header_level, blocks@),
    ensures
        r == heading_delta_spec(top_header_level, promote_headers, blocks@),
{
    let h: isize = (top_header_level as isize) - 1;
    if !promote_headers {
        return h;
    }
    let mut lowest: Option<usize> = None;
    let mut i: usize = 0;
    while i < blocks.len()
        invariant
            i <= blocks@.len(),
            lowest == lowest_heading(blocks@.take(i as int)),
            forall|k: int| 0 <= k < blocks@.len() ==> (#[trigger] blocks@[k]).heading < 0x4000_0000,
            lowest matches Some(l) ==> l < 0x4000_0000,
        decreases blocks@.len() - i,
    {
        proof {
            assert(blocks@.take(i + 1).drop_last() =~= blocks@.take(i as int));
        }
        let b = &blocks[i];
        let counts = b.heading != 0 && match b.include_type {
            BlockInclude::JustBlock => true,
            BlockInclude::AndChildren => true,
            BlockInclude::OnlyChildren => false,
            BlockInclude::Exclude => false,
            BlockInclude::IfChildrenPresent => b.children.len() != 0,
        };
        if counts {
            lowest = match lowest {
                Some(l) => if b.heading < l {
                    Some(b.heading)
                } else {
                    Some(l)
                },
                None => Some(b.heading),
            };
        }
        i = i + 1;
    }
    assert(blocks@.take(blocks@.len() as int) =~= blocks@);
    let m: isize = match lowest {
        Some(l) => (l as isize) - 1,
        None => 0,
    };
    h - m
}

/// The images and embedded pages that a page's expressions name.
#[derive(Debug)]
pub struct ExpressionContents {
    /// The URLs of the images, as written.
    pub image_urls: Vec<String>,
    /// The titles of the embedded pages.
    pub page_embeds: Vec<String>,
}

pub open spec fn pair_cat(
    a: (Seq<Seq<char>>, Seq<Seq<char>>),
    b: (Seq<Seq<char>>, Seq<Seq<char>>),
) -> (Seq<Seq<char>>, Seq<Seq<char>>) {
    (a.0 + b.0, a.1 + b.1)
}

pub open spec fn no_notables() -> (Seq<Seq<char>>, Seq<Seq<char>>) {
    (Seq::empty(), Seq::empty())
}

/// The image URL or embedded page title that an expression itself gives.
pub open spec fn own_notables(e: Expression) -> (Seq<Seq<char>>, Seq<Seq<char>>) {
    match e {
        Expression::Image { url, .. } => (seq![url@], Seq::<Seq<char>>::empty()),
        Expression::PageEmbed(t) => (Seq::<Seq<char>>::empty(), seq![t@]),
        _ => no_notables(),
    }
}

/// The image URLs and embedded page titles in an expression: its own, then those of the
/// expressions nested in it.
pub open spec fn notable_expr(e: Expression) -> (Seq<Seq<char>>, Seq<Seq<char>>)
    decreases e,
{
    let own = own_notables(e);
    let inner = match e {
        Expression::Bold(v) => notable_exprs(v@),
        Expression::Italic(v) => notable_exprs(v@),
        Expression::Strike(v) => notable_exprs(v@),
        Expression::Highlight(v) => notable_exprs(v@),
        Expression::BlockQuote(v) => notable_exprs(v@),
        Expression::Attribute { value, .. } => notable_exprs(value@),
        _ => no_notables(),
    };
    pair_cat(own, inner)
}

/// The image URLs and embedded page titles in a list of expressions, in order.
pub open spec fn notable_exprs(s: Seq<Expression>) -> (Seq<Seq<char>>, Seq<Seq<char>>)
    decreases s,
{
    if s.len() == 0 {
        no_notables()
    } else {
        pair_cat(notable_exprs(s.subrange(0, s.len() - 1)), notable_expr(s[s.len() - 1]))
    }
}

pub open spec fn contents_view(c: ExpressionContents) -> (Seq<Seq<char>>, Seq<Seq<char>>) {
    (texts(c.image_urls@), texts(c.page_embeds@))
}

fn push_text(v: &mut Vec<String>, s: &String)
    ensures
        texts(final(v)@) == texts(old(v)@).push(s@),
{
    let ghost t0 = texts(v@);
    v.push(s.clone());
    assert(texts(v@) =~= t0.push(s@));
}

fn examine_expression(contents: &mut ExpressionContents, e: &Expression)
    ensures
        contents_view(*final(contents)) == pair_cat(contents_view(*old(contents)), notable_expr(*e)),
    decreases e, 0int,
{
    let ghost c0 = contents_view(*contents);
    match e {
        Expression::Image { url, .. } => push_text(&mut contents.image_urls, url),
        Expression::PageEmbed(t) => push_text(&mut contents.page_embeds, t),
        _ => {},
    }
    let ghost own = own_notables(*e);
    assert(contents_view(*contents) =~= pair_cat(c0, own));
    let ghost c1 = contents_view(*contents);
    match e {
        Expression::Bold(v) => examine_list(contents, v),
        Expression::Italic(v) => examine_list(contents, v),
        Expression::Strike(v) => examine_list(contents, v),
        Expression::Highlight(v) => examine_list(contents, v),
        Expression::BlockQuote(v) => examine_list(contents, v),
        Expression::Attribute { value, .. } => examine_list(contents, value),
        _ => {
            assert(contents_view(*contents) =~= pair_cat(c1, no_notables()));
        },
    }
    assert(contents_view(*contents) =~= pair_cat(contents_view(*old(contents)), notable_expr(*e)));
}

fn examine_list(contents: &mut ExpressionContents, v: &Vec<Expression>)
    ensures
        contents_view(*final(contents)) == pair_cat(contents_view(*old(contents)), notable_exprs(v@)),
    decreases v, 1int,
{
    let ghost c0 = contents_view(*contents);
    let mut i: usize = 0;
    assert(v@.subrange(0, 0) =~= Seq::<Expression>::empty());
    assert(pair_cat(c0, notable_exprs(v@.subrange(0, 0))) =~= c0);
    while i < v.len()
        invariant
            i <= v@.len(),
            contents_view(*contents) == pair_cat(c0, notable_exprs(v@.subrange(0, i as int))),
        decreases v@.len() - i,
    {
        proof {
            assert(decreases_to!(v => v@));
            assert(decreases_to!(v@ => v@[i as int]));
        }
        let ghost ci = contents_view(*contents);
        examine_expression(contents, &v[i]);
        assert(v@.subrange(0, i + 1).subrange(0, i as int) =~= v@.subrange(0, i as int));
        assert(v@.subrange(0, i + 1)[i as int] == v@[i as int]);
        assert(contents_view(*contents) =~= pair_cat(c0, notable_exprs(v@.subrange(0, i + 1))));
        i = i + 1;
    }
    assert(v@.subrange(0, v@.len() as int) =~= v@);
}

/// Add the image URLs and embedded page titles of `expressions`, in order, to `contents`.
pub fn examine_expressions(contents: &mut ExpressionContents, expressions: &Vec<Expression>)
    ensures
        contents_view(*final(contents)) == pair_cat(contents_view(*old(contents)), notable_exprs(expressions@)),
{
    examine_list(contents, expressions)
}

/// The image URLs and embedded page titles of a block and the blocks under it, depth first;
/// `fuel` bounds the depth.
pub open spec fn notable_tree(page: ParsedPage, id: int, fuel: nat) -> (Seq<Seq<char>>, Seq<Seq<char>>)
    decreases fuel, 0int,
{
    if fuel == 0 || !(page.root_block <= id < page.root_block + page.blocks@.len()) {
        no_notables()
    } else {
        let b = page.blocks@[id - page.root_block];
        pair_cat(notable_exprs(b.contents.parsed@), notable_children(page, b.children@, b.children@.len() as int, (fuel - 1) as nat))
    }
}

pub open spec fn notable_children(page: ParsedPage, children: Seq<usize>, n: int, fuel: nat) -> (Seq<Seq<char>>, Seq<Seq<char>>)
    decreases fuel, 1int, n,
{
    if n <= 0 || n > children.len() {
        no_notables()
    } else {
        pair_cat(notable_children(page, children, n - 1, fuel), notable_tree(page, children[n - 1] as int, fuel))
    }
}

fn examine_block(contents: &mut ExpressionContents, page: &ParsedPage, id: usize, fuel: usize)
    ensures
        contents_view(*final(contents)) == pair_cat(contents_view(*old(contents)), notable_tree(*page, id as int, fuel as nat)),
    decreases fuel,
{
    let ghost c0 = contents_view(*contents);
    if fuel == 0 || id < page.root_block || id - page.root_block >= page.blocks.len() {
        assert(pair_cat(c0, no_notables()) =~= c0);
        return;
    }
    let b = &page.blocks[id - page.root_block];
    examine_list(contents, &b.contents.parsed);
    let ghost c1 = contents_view(*contents);
    let mut i: usize = 0;
    assert(pair_cat(c1, notable_children(*page, b.children@, 0, (fuel - 1) as nat)) =~= c1);
    while i < b.children.len()
        invariant
            0 < fuel,
            i <= b.children@.len(),
            contents_view(*contents) == pair_cat(c1, notable_children(*page, b.children@, i as int, (fuel - 1) as nat)),
        decreases b.children@.len() - i,
    {
        examine_block(contents, page, b.children[i], fuel - 1);
        assert(contents_view(*contents) =~= pair_cat(c1, notable_children(*page, b.children@, i + 1, (fuel - 1) as nat)));
        i = i + 1;
    }
    assert(contents_view(*contents) =~= pair_cat(c0, notable_tree(*page, id as int, fuel as nat)));
}

/// Add the image URLs and embedded page titles of a page's blocks, depth first from its own
/// block, to `contents`. A page's blocks form a tree, so no path down from its own block is
/// longer than the number of its blocks.
pub fn examine_tags(contents: &mut ExpressionContents, page: &ParsedPage)
    ensures
        contents_view(*final(contents)) == pair_cat(
            contents_view(*old(contents)),
            notable_tree(*page, page.root_block as int, page.blocks@.len()),
        ),
{
    examine_block(contents, page, page.root_block, page.blocks.len())
}

/// Whether `a` comes no later than `b` in the order of strings: character by character, a
/// prefix first.
pub open spec fn text_le(a: Seq<char>, b: Seq<char>) -> bool
    decreases a.len(),
{
    if a.len() == 0 {
        true
    } else if b.len() == 0 {
        false
    } else if a[0] != b[0] {
        a[0] < b[0]
    } else {
        text_le(a.drop_first(), b.drop_first())
    }
}

fn chars_le(a: &Vec<char>, b: &Vec<char>) -> (r: bool)
    ensures
        r == text_le(a@, b@),
{
    let mut k: usize = 0;
    assert(a@.skip(0) =~= a@);
    assert(b@.skip(0) =~= b@);
    while k < a.len() && k < b.len() && a[k] == b[k]
        invariant
            k <= a@.len(),
            k <= b@.len(),
            text_le(a@, b@) == text_le(a@.skip(k as int), b@.skip(k as int)),
        decreases a@.len() - k,
    {
        assert(a@.skip(k as int).drop_first() =~= a@.skip(k + 1));
        assert(b@.skip(k as int).drop_first() =~= b@.skip(k + 1));
        assert(a@.skip(k as int)[0] == a@[k as int]);
        assert(b@.skip(k as int)[0] == b@[k as int]);
        k = k + 1;
    }
    if k == a.len() {
        true
    } else if k == b.len() {
        false
    } else {
        assert(a@.skip(k as int)[0] == a@[k as int]);
        assert(b@.skip(k as int)[0] == b@[k as int]);
        a[k] < b[k]
    }
}

/// `s`, ordered by key, with `x` put after the last entry whose key is no later than its own.
pub open spec fn insert_keyed(s: Seq<(Seq<char>, Seq<char>)>, x: (Seq<char>, Seq<char>)) -> Seq<(Seq<char>, Seq<char>)>
    decreases s.len(),
{
    if s.len() == 0 {
        seq![x]
    } else if text_le(s.last().0, x.0) {
        s.push(x)
    } else {
        insert_keyed(s.drop_last(), x).push(s.last())
    }
}

/// Entries ordered by key, those with equal keys in their original order.
pub open spec fn sort_keyed(s: Seq<(Seq<char>, Seq<char>)>) -> Seq<(Seq<char>, Seq<char>)>
    decreases s.len(),
{
    if s.len() == 0 {
        Seq::empty()
    } else {
        insert_keyed(sort_keyed(s.drop_last()), s.last())
    }
}

/// The list without the entries equal to the one just before them.
pub open spec fn dedup_adjacent(s: Seq<Seq<char>>) -> Seq<Seq<char>>
    decreases s.len(),
{
    if s.len() == 0 {
        Seq::empty()
    } else if s.len() >= 2 && s[s.len() - 2] == s.last() {
        dedup_adjacent(s.drop_last())
    } else {
        dedup_adjacent(s.drop_last()).push(s.last())
    }
}

pub open spec fn keyed_tags(tags: Seq<Seq<char>>) -> Seq<(Seq<char>, Seq<char>)> {
    tags.map_values(|t: Seq<char>| (lowercase_of(t), t))
}

pub open spec fn second_of(s: Seq<(Seq<char>, Seq<char>)>) -> Seq<Seq<char>> {
    s.map_values(|p: (Seq<char>, Seq<char>)| p.1)
}

/// A page's tags for its template: ordered by their lowercase form, repeats next to each other
/// dropped.
pub open spec fn page_tags_spec(tags: Seq<Seq<char>>) -> Seq<Seq<char>> {
    dedup_adjacent(second_of(sort_keyed(keyed_tags(tags))))
}

pub open spec fn keyed_view(s: Seq<(Vec<char>, String)>) -> Seq<(Seq<char>, Seq<char>)> {
    s.map_values(|p: (Vec<char>, String)| (p.0@, p.1@))
}

fn insert_keyed_exec(s: Vec<(Vec<char>, String)>, x: (Vec<char>, String)) -> (r: Vec<(Vec<char>, String)>)
    ensures
        keyed_view(r@) == insert_keyed(keyed_view(s@), (x.0@, x.1@)),
    decreases s@.len(),
{
    let ghost s0 = s@;
    let ghost xv = (x.0@, x.1@);
    let mut s = s;
    if s.len() == 0 {
        let mut v: Vec<(Vec<char>, String)> = Vec::new();
        v.push(x);
        assert(keyed_view(v@) =~= seq![xv]);
        return v;
    }
    let n = s.len();
    assert(keyed_view(s0).last() == (s0[n - 1].0@, s0[n - 1].1@));
    if chars_le(&s[n - 1].0, &x.0) {
        s.push(x);
        assert(keyed_view(s@) =~= keyed_view(s0).push(xv));
        s
    } else {
        let last = s.pop().unwrap();
        assert(keyed_view(s@) =~= keyed_view(s0).drop_last());
        let ghost lv = (last.0@, last.1@);
        let mut t = insert_keyed_exec(s, x);
        let ghost t0 = t@;
        t.push(last);
        assert(keyed_view(t@) =~= keyed_view(t0).push(lv));
        t
    }
}

/// A page's tags for its template: ordered by their lowercase form (see `to_lowercase`),
/// repeats next to each other dropped.
pub fn page_tags(tags: &Vec<String>) -> (r: Vec<String>)
    ensures
        texts(r@) == page_tags_spec(texts(tags@)),
{
    let ghost kt = keyed_tags(texts(tags@));
    let mut sorted: Vec<(Vec<char>, String)> = Vec::new();
    let mut i: usize = 0;
    assert(kt.take(0) =~= Seq::<(Seq<char>, Seq<char>)>::empty());
    assert(keyed_view(sorted@) =~= Seq::<(Seq<char>, Seq<char>)>::empty());
    while i < tags.len()
        invariant
            i <= tags@.len(),
            kt == keyed_tags(texts(tags@)),
            keyed_view(sorted@) == sort_keyed(kt.take(i as int)),
        decreases tags@.len() - i,
    {
        let lower = to_lowercase(tags[i].as_str());
        let key = to_chars(lower.as_str());
        assert(kt.take(i + 1).drop_last() =~= kt.take(i as int));
        assert(kt.take(i + 1).last() == (lowercase_of(tags@[i as int]@), tags@[i as int]@));
        sorted = insert_keyed_exec(sorted, (key, tags[i].clone()));
        i = i + 1;
    }
    assert(kt.take(tags@.len() as int) =~= kt);
    let ghost ss = second_of(keyed_view(sorted@));
    let mut out: Vec<String> = Vec::new();
    let mut j: usize = 0;
    assert(ss.take(0) =~= Seq::<Seq<char>>::empty());
    while j < sorted.len()
        invariant
            j <= sorted@.len(),
            ss == second_of(keyed_view(sorted@)),
            texts(out@) == dedup_adjacent(ss.take(j as int)),
        decreases sorted@.len() - j,
    {
        assert(ss.take(j + 1).drop_last() =~= ss.take(j as int));
        assert(ss[j as int] == sorted@[j as int].1@);
        let repeat = if j > 0 {
            let prev = to_chars(sorted[j - 1].1.as_str());
            assert(ss[j - 1] == sorted@[j - 1].1@);
            chars_equal(&prev, sorted[j].1.as_str())
        } else {
            false
        };
        if !repeat {
            let ghost t0 = texts(out@);
            out.push(sorted[j].1.clone());
            assert(texts(out@) =~= t0.push(ss[j as int]));
        }
        j = j + 1;
    }
    assert(ss.take(sorted@.len() as int) =~= ss);
    out
}

proof fn lemma_text_le_total(a: Seq<char>, b: Seq<char>)
    ensures
        text_le(a, b) || text_le(b, a),
    decreases a.len(),
{
    if a.len() > 0 && b.len() > 0 {
        if a[0] == b[0] {
            lemma_text_le_total(a.drop_first(), b.drop_first());
        }
    }
}

proof fn lemma_text_le_trans(a: Seq<char>, b: Seq<char>, c: Seq<char>)
    requires
        text_le(a, b),
        text_le(b, c),
    ensures
        text_le(a, c),
    decreases a.len(),
{
    if a.len() > 0 && b.len() > 0 && c.len() > 0 && a[0] == b[0] && b[0] == c[0] {
        lemma_text_le_trans(a.drop_first(), b.drop_first(), c.drop_first());
    }
}

pub open spec fn keys_ordered(s: Seq<(Seq<char>, Seq<char>)>) -> bool {
    forall|i: int, j: int| 0 <= i < j < s.len() ==> text_le(s[i].0, s[j].0)
}

pub open spec fn keys_lowercase(s: Seq<(Seq<char>, Seq<char>)>) -> bool {
    forall|i: int| 0 <= i < s.len() ==> (#[trigger] s[i]).0 == lowercase_of(s[i].1)
}

proof fn lemma_insert_keyed(s: Seq<(Seq<char>, Seq<char>)>, x: (Seq<char>, Seq<char>))
    requires
        keys_ordered(s),
        keys_lowercase(s),
        x.0 == lowercase_of(x.1),
    ensures
        keys_ordered(insert_keyed(s, x)),
        keys_lowercase(insert_keyed(s, x)),
        insert_keyed(s, x).len() == s.len() + 1,
        forall|k: int|
            0 <= k < insert_keyed(s, x).len() ==> #[trigger] insert_keyed(s, x)[k] == x || exists|j: int|
                0 <= j < s.len() && insert_keyed(s, x)[k] == s[j],
    decreases s.len(),
{
    if s.len() == 0 {
    } else if text_le(s.last().0, x.0) {
        let t = s.push(x);
        assert forall|i: int, j: int| 0 <= i < j < t.len() implies text_le(t[i].0, t[j].0) by {
            if j == t.len() - 1 && i < s.len() - 1 {
                lemma_text_le_trans(s[i].0, s.last().0, x.0);
            }
        }
        assert forall|k: int| 0 <= k < t.len() implies #[trigger] t[k] == x || exists|j: int|
            0 <= j < s.len() && t[k] == s[j] by {
            if k < s.len() {
                assert(t[k] == s[k]);
            }
        }
    } else {
        let s1 = s.drop_last();
        lemma_insert_keyed(s1, x);
        let u = insert_keyed(s1, x);
        let t = u.push(s.last());
        lemma_text_le_total(s.last().0, x.0);
        assert forall|k: int| 0 <= k < u.len() implies text_le(#[trigger] u[k].0, s.last().0) by {
            if u[k] != x {
                let j = choose|j: int| 0 <= j < s1.len() && u[k] == s1[j];
                assert(s1[j] == s[j]);
            }
        }
        assert forall|i: int, j: int| 0 <= i < j < t.len() implies text_le(t[i].0, t[j].0) by {
            if j == t.len() - 1 {
                assert(t[i] == u[i]);
            }
        }
        assert forall|k: int| 0 <= k < t.len() implies #[trigger] t[k] == x || exists|j: int|
            0 <= j < s.len() && t[k] == s[j] by {
            if k < u.len() {
                if u[k] != x {
                    let j = choose|j: int| 0 <= j < s1.len() && u[k] == s1[j];
                    assert(s1[j] == s[j]);
                }
            } else {
                assert(t[k] == s[s.len() - 1]);
            }
        }
    }
}

proof fn lemma_sort_keyed(s: Seq<(Seq<char>, Seq<char>)>)
    requires
        keys_lowercase(s),
    ensures
        keys_ordered(sort_keyed(s)),
        keys_lowercase(sort_keyed(s)),
    decreases s.len(),
{
    if s.len() > 0 {
        let s1 = s.drop_last();
        assert(keys_lowercase(s1)) by {
            assert forall|i: int| 0 <= i < s1.len() implies (#[trigger] s1[i]).0 == lowercase_of(s1[i].1) by {
                assert(s1[i] == s[i]);
            }
        }
        lemma_sort_keyed(s1);
        lemma_insert_keyed(sort_keyed(s1), s.last());
    }
}

pub open spec fn tags_ordered(s: Seq<Seq<char>>) -> bool {
    forall|i: int, j: int| 0 <= i < j < s.len() ==> text_le(lowercase_of(s[i]), lowercase_of(s[j]))
}

proof fn lemma_dedup(s: Seq<Seq<char>>)
    requires
        tags_ordered(s),
    ensures
        tags_ordered(dedup_adjacent(s)),
        dedup_adjacent(s).len() > 0 ==> dedup_adjacent(s).last() == s.last(),
        forall|i: int|
            0 <= i < dedup_adjacent(s).len() - 1 ==> #[trigger] dedup_adjacent(s)[i] != dedup_adjacent(s)[i + 1],
        forall|k: int|
            0 <= k < dedup_adjacent(s).len() ==> exists|j: int|
                0 <= j < s.len() && #[trigger] dedup_adjacent(s)[k] == s[j],
    decreases s.len(),
{
    if s.len() > 0 {
        let s1 = s.drop_last();
        assert(tags_ordered(s1)) by {
            assert forall|i: int, j: int| 0 <= i < j < s1.len() implies text_le(
                lowercase_of(s1[i]),
                lowercase_of(s1[j]),
            ) by {
                assert(s1[i] == s[i] && s1[j] == s[j]);
            }
        }
        lemma_dedup(s1);
        let d1 = dedup_adjacent(s1);
        assert forall|k: int| 0 <= k < d1.len() implies exists|j: int| 0 <= j < s.len() && #[trigger] d1[k] == s[j] by {
            let j = choose|j: int| 0 <= j < s1.len() && d1[k] == s1[j];
            assert(s1[j] == s[j]);
        }
        if s.len() >= 2 && s[s.len() - 2] == s.last() {
        } else {
            let d = d1.push(s.last());
            assert forall|i: int, j: int| 0 <= i < j < d.len() implies text_le(
                lowercase_of(d[i]),
                lowercase_of(d[j]),
            ) by {
                if j == d.len() - 1 {
                    let m = choose|m: int| 0 <= m < s.len() && d1[i] == s[m];
                    if m < s.len() - 1 {
                        assert(text_le(lowercase_of(s[m]), lowercase_of(s[s.len() - 1])));
                    } else {
                        lemma_text_le_total(lowercase_of(s[m]), lowercase_of(s[m]));
                    }
                } else {
                    assert(d[i] == d1[i] && d[j] == d1[j]);
                }
            }
            assert forall|k: int| 0 <= k < d.len() implies exists|j: int| 0 <= j < s.len() && #[trigger] d[k] == s[j] by {
                if k < d1.len() {
                    assert(d[k] == d1[k]);
                } else {
                    assert(d[k] == s[s.len() - 1]);
                }
            }
            assert forall|i: int| 0 <= i < d.len() - 1 implies #[trigger] d[i] != d[i + 1] by {
                if i == d.len() - 2 {
                    assert(d[i] == d1.last());
                    assert(d1.last() == s1.last());
                } else {
                    assert(d[i] == d1[i] && d[i + 1] == d1[i + 1]);
                }
            }
        }
    }
}

/// A page's tags come out ordered by their lowercase form, with no tag right after the same
/// tag.
pub proof fn law_page_tags_ordered(tags: Seq<Seq<char>>)
    ensures
        tags_ordered(page_tags_spec(tags)),
        forall|i: int|
            0 <= i < page_tags_spec(tags).len() - 1 ==> #[trigger] page_tags_spec(tags)[i] != page_tags_spec(tags)[i + 1],
{
    let k = keyed_tags(tags);
    lemma_sort_keyed(k);
    let sk = sort_keyed(k);
    let so = second_of(sk);
    assert(tags_ordered(so)) by {
        assert forall|i: int, j: int| 0 <= i < j < so.len() implies text_le(lowercase_of(so[i]), lowercase_of(so[j])) by {
            assert(sk[i].0 == lowercase_of(sk[i].1));
            assert(sk[j].0 == lowercase_of(sk[j].1));
        }
    }
    lemma_dedup(so);
}

/// Whether the template a page asks for can be had: a page that asks for the default template
/// needs the configuration to name one.
pub fn template_available(selection: &crate::script::TemplateSelection, has_default_template: bool) -> (r: bool)
    ensures
        r == (!(*selection is Default) || has_default_template),
{
    match selection {
        crate::script::TemplateSelection::Default => has_default_template,
        _ => true,
    }
}

/// How many of the written pages' files already held what was written.
pub open spec fn count_unchanged(s: Seq<bool>) -> nat
    decreases s.len(),
{
    if s.len() == 0 {
        0
    } else {
        count_unchanged(s.drop_last()) + if s.last() {
            1nat
        } else {
            0nat
        }
    }
}

/// The counts of the pages written, given for each page whether its file already held what
/// was written: the pages whose files changed, and those whose files did not.
pub fn write_counts(unchanged: &Vec<bool>) -> (r: (usize, usize))
    ensures
        r.1 == count_unchanged(unchanged@),
        r.0 + r.1 == unchanged@.len(),
{
    let mut same: usize = 0;
    let mut i: usize = 0;
    assert(unchanged@.take(0) =~= Seq::<bool>::empty());
    while i < unchanged.len()
        invariant
            i <= unchanged@.len(),
            same == count_unchanged(unchanged@.take(i as int)),
            same <= i,
        decreases unchanged@.len() - i,
    {
        assert(unchanged@.take(i + 1).drop_last() =~= unchanged@.take(i as int));
        if unchanged[i] {
            same = same + 1;
        }
        i = i + 1;
    }
    assert(unchanged@.take(unchanged@.len() as int) =~= unchanged@);
    (unchanged.len() - same, same)
}

} // verus!
