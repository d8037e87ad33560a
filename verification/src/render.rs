//! HTML rendering of a page's blocks.
use vstd::prelude::*;

use crate::chars::{find, find_from, push_char, to_chars};
use crate::config::Config;
use crate::graph::{Block, ViewType};
use crate::html::{escape, escaped};
use crate::parse_string::ContentStyle;
use crate::string_builder::{rendered, rendered_all, StringBuilder};
use crate::render_spec::{hashtag_spec, image_spec, link_spec, picture_index, video_spec, Ctx};

verus! {

/// A page as other pages see it, by id.
#[derive(Debug, Clone)]
pub struct TitleSlugUid {
    pub title: String,
    pub slug: String,
    pub uid: String,
    pub included: bool,
    pub allow_embed: bool,
}

/// A page as other pages see it, by title.
#[derive(Debug, Clone)]
pub struct IdSlugUid {
    pub id: usize,
    pub output_title: String,
    pub slug: String,
    pub uid: String,
    pub included: bool,
    pub allow_embed: bool,
}

/// An entry of the manifest of written pages.
#[derive(Debug, Clone)]
pub struct ManifestItem {
    pub slug: String,
    pub title: String,
    pub uid: String,
}

/// Two spaces per level of depth.
pub open spec fn indent_text(depth: nat) -> Seq<char>
    decreases depth,
{
    if depth == 0 {
        Seq::empty()
    } else {
        indent_text((depth - 1) as nat) + seq![' ', ' ']
    }
}

/// The indentation for a given depth: two spaces per level.
pub fn write_depth(depth: usize) -> (r: String)
    ensures
        r@ == indent_text(depth as nat),
{
    let mut out = String::new();
    let mut i: usize = 0;
    while i < depth
        invariant
            i <= depth,
            out@ == indent_text(i as nat),
        decreases depth - i,
    {
        push_char(&mut out, ' ');
        push_char(&mut out, ' ');
        i = i + 1;
    }
    out
}

/// `<tag>`, or `<tag class="class">` when a class is given.
pub open spec fn opening_tag(tag: Seq<char>, class: Seq<char>) -> Seq<char> {
    if class.len() == 0 {
        seq!['<'] + tag + seq!['>']
    } else {
        seq!['<'] + tag + seq![' ', 'c', 'l', 'a', 's', 's', '=', '"'] + class + seq!['"', '>']
    }
}

/// The opening tag of an element, with a class attribute when a class is given.
pub fn render_opening_tag(tag: &str, class: &str) -> (r: String)
    ensures
        r@ == opening_tag(tag@, class@),
{
    let mut out = String::new();
    push_char(&mut out, '<');
    out.append(tag);
    if class.is_empty() {
        push_char(&mut out, '>');
    } else {
        out.append(" class=\"");
        out.append(class);
        push_char(&mut out, '"');
        push_char(&mut out, '>');
        proof {
            reveal_strlit(" class=\"");
            assert(" class=\""@ =~= seq![' ', 'c', 'l', 'a', 's', 's', '=', '"']);
        }
    }
    assert(out@ =~= opening_tag(tag@, class@));
    out
}

/// The closing tag of an element.
pub open spec fn closing_tag(tag: Seq<char>) -> Seq<char> {
    seq!['<', '/'] + tag + seq!['>']
}

pub fn render_closing_tag(tag: &str) -> (r: String)
    ensures
        r@ == closing_tag(tag@),
{
    let mut out = String::new();
    push_char(&mut out, '<');
    push_char(&mut out, '/');
    out.append(tag);
    push_char(&mut out, '>');
    assert(out@ =~= closing_tag(tag@));
    out
}

/// The blocks of all pages.
#[derive(Debug)]
pub struct Graph {
    pub blocks: Vec<Block>,
    pub content_style: ContentStyle,
    /// The blocks are ordered by their `order` field, not by their place among their parent's
    /// children.
    pub block_explicit_ordering: bool,
}

/// The pages by title and by id, and the attributes not to render.
#[derive(Debug)]
pub struct PageTables {
    pub pages_by_title: Vec<(String, IdSlugUid)>,
    /// Titles of pages named in the original case of their file name, mapped to their titles.
    pub pages_by_filename_title: Vec<(String, String)>,
    pub pages_by_id: Vec<(usize, TitleSlugUid)>,
    pub omitted_attributes: Vec<String>,
}

/// What other tools made of parts of the page: `<picture>` elements for images by URL and alt
/// text. `None` marks a failure.
#[derive(Debug)]
pub struct Externals {
    pub pictures: Vec<(String, String, Option<String>)>,
}

/// One page being rendered.
pub struct Page<'a> {
    pub id: usize,
    pub title: String,
    pub graph: &'a Graph,
    pub config: &'a Config,
    pub heading_delta: isize,
    pub tables: &'a PageTables,
    pub externals: &'a Externals,
    pub highlighter: &'a crate::highlight::Highlighter,
}

/// Why a page could not be rendered.
#[derive(Debug, Clone, PartialEq, Eq)]
pub enum RenderError {
    /// Rendering used up its budget (see `render_budget`): blocks lead back to themselves
    /// through children, references or embeds.
    TooDeep,
    /// The text of a block reference that names no block does not parse.
    Parse,
    /// A formula that KaTeX cannot render.
    Latex,
    /// A code block whose highlighting failed.
    Highlight,
    /// An image whose `<picture>` element could not be made.
    Picture(String),
    /// A page to embed whose block is not in the graph.
    MissingBlock,
}

pub open spec fn keys_of<V>(v: Seq<(String, V)>) -> Seq<Seq<char>> {
    v.map_values(|e: (String, V)| e.0@)
}

/// The position of the last entry with the given key.
pub open spec fn last_index(keys: Seq<Seq<char>>, key: Seq<char>) -> Option<int>
    decreases keys.len(),
{
    if keys.len() == 0 {
        None
    } else if keys.last() == key {
        Some(keys.len() - 1)
    } else {
        last_index(keys.drop_last(), key)
    }
}

proof fn lemma_last_index_bound(keys: Seq<Seq<char>>, key: Seq<char>)
    ensures
        last_index(keys, key) matches Some(i) ==> 0 <= i < keys.len() && keys[i] == key,
    decreases keys.len(),
{
    if keys.len() > 0 && keys.last() != key {
        lemma_last_index_bound(keys.drop_last(), key);
    }
}

/// The position of the last entry of `v` whose key is `key`.
pub fn last_key_index<V>(v: &Vec<(String, V)>, key: &str) -> (r: Option<usize>)
    ensures
        r == match last_index(keys_of(v@), key@) {
            Some(i) => Some(i as usize),
            None => None,
        },
        r matches Some(i) ==> i < v@.len() && last_index(keys_of(v@), key@) == Some(i as int),
{
    proof {
        lemma_last_index_bound(keys_of(v@), key@);
    }
    let mut i = v.len();
    assert(keys_of(v@).take(i as int) =~= keys_of(v@));
    while i > 0
        invariant
            i <= v@.len(),
            last_index(keys_of(v@), key@) == last_index(keys_of(v@).take(i as int), key@),
        decreases i,
    {
        assert(keys_of(v@).take(i as int).drop_last() =~= keys_of(v@).take(i - 1));
        let k = to_chars(v[i - 1].0.as_str());
        if crate::chars::chars_equal(&k, key) {
            return Some(i - 1);
        }
        i = i - 1;
    }
    assert(keys_of(v@).take(0) =~= Seq::<Seq<char>>::empty());
    None
}

/// The entry of the page with this title, looked up directly or through its file-name title.
pub open spec fn lookup_page_spec(t: PageTables, title: Seq<char>) -> Option<IdSlugUid> {
    match last_index(keys_of(t.pages_by_title@), title) {
        Some(i) => Some(t.pages_by_title@[i].1),
        None => match last_index(keys_of(t.pages_by_filename_title@), title) {
            Some(j) => match last_index(keys_of(t.pages_by_title@), t.pages_by_filename_title@[j].1@) {
                Some(i) => Some(t.pages_by_title@[i].1),
                None => None,
            },
            None => None,
        },
    }
}

pub(crate) fn lookup_page<'t>(t: &'t PageTables, title: &str) -> (r: Option<&'t IdSlugUid>)
    ensures
        match lookup_page_spec(*t, title@) {
            Some(p) => r matches Some(q) && *q == p,
            None => r is None,
        },
{
    match last_key_index(&t.pages_by_title, title) {
        Some(i) => Some(&t.pages_by_title[i].1),
        None => match last_key_index(&t.pages_by_filename_title, title) {
            Some(j) => match last_key_index(&t.pages_by_title, t.pages_by_filename_title[j].1.as_str()) {
                Some(i) => Some(&t.pages_by_title[i].1),
                None => None,
            },
            None => None,
        },
    }
}

/// The entry of the page with this id.
pub open spec fn page_by_id_spec(v: Seq<(usize, TitleSlugUid)>, id: usize) -> Option<TitleSlugUid>
    decreases v.len(),
{
    if v.len() == 0 {
        None
    } else if v.last().0 == id {
        Some(v.last().1)
    } else {
        page_by_id_spec(v.drop_last(), id)
    }
}

pub(crate) fn page_by_id(v: &Vec<(usize, TitleSlugUid)>, id: usize) -> (r: Option<&TitleSlugUid>)
    ensures
        match page_by_id_spec(v@, id) {
            Some(p) => r matches Some(q) && *q == p,
            None => r is None,
        },
{
    let mut i = v.len();
    assert(v@.take(i as int) =~= v@);
    while i > 0
        invariant
            i <= v@.len(),
            page_by_id_spec(v@, id) == page_by_id_spec(v@.take(i as int), id),
        decreases i,
    {
        assert(v@.take(i as int).drop_last() =~= v@.take(i - 1));
        if v[i - 1].0 == id {
            return Some(&v[i - 1].1);
        }
        i = i - 1;
    }
    None
}

/// The block with this id, the last one if several have it.
pub open spec fn block_by_id(blocks: Seq<Block>, id: usize) -> Option<int>
    decreases blocks.len(),
{
    if blocks.len() == 0 {
        None
    } else if blocks.last().id == id {
        Some(blocks.len() - 1)
    } else {
        block_by_id(blocks.drop_last(), id)
    }
}

proof fn lemma_block_by_id_bound(blocks: Seq<Block>, id: usize)
    ensures
        block_by_id(blocks, id) matches Some(i) ==> 0 <= i < blocks.len() && blocks[i].id == id,
    decreases blocks.len(),
{
    if blocks.len() > 0 && blocks.last().id != id {
        lemma_block_by_id_bound(blocks.drop_last(), id);
    }
}

pub(crate) fn find_block(blocks: &Vec<Block>, id: usize) -> (r: Option<usize>)
    ensures
        match r {
            Some(i) => block_by_id(blocks@, id) == Some(i as int) && i < blocks@.len(),
            None => block_by_id(blocks@, id) is None,
        },
{
    proof {
        lemma_block_by_id_bound(blocks@, id);
    }
    let mut i = blocks.len();
    assert(blocks@.take(i as int) =~= blocks@);
    while i > 0
        invariant
            i <= blocks@.len(),
            block_by_id(blocks@, id) == block_by_id(blocks@.take(i as int), id),
        decreases i,
    {
        assert(blocks@.take(i as int).drop_last() =~= blocks@.take(i - 1));
        if blocks[i - 1].id == id {
            return Some(i - 1);
        }
        i = i - 1;
    }
    None
}

pub open spec fn uids_of(blocks: Seq<Block>) -> Seq<Seq<char>> {
    blocks.map_values(|b: Block| b.uid@)
}

/// The block with this uid: the block whose id the last block with that uid has. No block has
/// the empty uid.
pub open spec fn block_by_uid(blocks: Seq<Block>, uid: Seq<char>) -> Option<int> {
    if uid.len() == 0 {
        None
    } else {
        match last_index(uids_of(blocks), uid) {
            Some(i) => block_by_id(blocks, blocks[i].id),
            None => None,
        }
    }
}

pub(crate) fn find_block_by_uid(blocks: &Vec<Block>, uid: &str) -> (r: Option<usize>)
    ensures
        match r {
            Some(i) => block_by_uid(blocks@, uid@) == Some(i as int) && i < blocks@.len(),
            None => block_by_uid(blocks@, uid@) is None,
        },
{
    if uid.is_empty() {
        return None;
    }
    let ghost uids = uids_of(blocks@);
    proof {
        lemma_last_index_bound(uids, uid@);
    }
    let mut i = blocks.len();
    assert(uids.take(i as int) =~= uids);
    while i > 0
        invariant
            i <= blocks@.len(),
            uids == uids_of(blocks@),
            uid@.len() > 0,
            last_index(uids, uid@) == last_index(uids.take(i as int), uid@),
        decreases i,
    {
        assert(uids.take(i as int).drop_last() =~= uids.take(i - 1));
        let k = to_chars(blocks[i - 1].uid.as_str());
        if crate::chars::chars_equal(&k, uid) {
            assert(last_index(uids, uid@) == Some(i - 1));
            proof {
                lemma_block_by_id_bound(blocks@, blocks@[i - 1].id);
            }
            return find_block(blocks, blocks[i - 1].id);
        }
        i = i - 1;
    }
    assert(uids.take(0) =~= Seq::<Seq<char>>::empty());
    None
}

/// What the `regex` crate gives for replacing every match of `pattern` in `text` by
/// `replacement` (in its `$name` syntax), or nothing for a pattern that does not compile.
pub uninterp spec fn regex_replaced(pattern: Seq<char>, text: Seq<char>, replacement: Seq<char>) -> Option<Seq<char>>;

/// `regex::Regex::new` followed by `Regex::replace_all`: one replacement of all matches. The
/// contract names the result and claims nothing more of it.
#[verifier::external_body]
fn regex_replace_all(pattern: &str, text: &str, replacement: &str) -> (r: Option<String>)
    ensures
        match r {
            Some(x) => regex_replaced(pattern@, text@, replacement@) == Some(x@),
            None => regex_replaced(pattern@, text@, replacement@) is None,
        },
{
    match regex::Regex::new(pattern) {
        Ok(re) => Some(re.replace_all(text, replacement).into_owned()),
        Err(_) => None,
    }
}

/// What `katex::render` gives for a formula, or nothing where it fails.
pub uninterp spec fn katex_html(formula: Seq<char>) -> Option<Seq<char>>;

/// `katex::render`. The contract names the result and claims nothing more of it.
#[verifier::external_body]
pub(crate) fn katex_render(formula: &str) -> (r: Option<String>)
    ensures
        match r {
            Some(h) => katex_html(formula@) == Some(h@),
            None => katex_html(formula@) is None,
        },
{
    match katex::render(formula) {
        Ok(h) => Some(h),
        Err(_) => None,
    }
}

/// What `urlencoding::encode` gives for a text.
pub uninterp spec fn url_encoded(s: Seq<char>) -> Seq<char>;

/// The characters that `urlencoding::encode` leaves as they are.
pub open spec fn url_unreserved(c: char) -> bool {
    ('a' <= c <= 'z') || ('A' <= c <= 'Z') || ('0' <= c <= '9') || c == '-' || c == '_' || c
        == '.' || c == '~'
}

/// `urlencoding::encode`. Besides naming the result, the contract states what its source
/// documents: a text of unreserved characters only comes back unchanged.
#[verifier::external_body]
fn url_encode(s: &str) -> (r: String)
    ensures
        r@ == url_encoded(s@),
        (forall|i: int| 0 <= i < s@.len() ==> url_unreserved(#[trigger] s@[i])) ==> r@ == s@,
{
    urlencoding::encode(s).into_owned()
}

/// The pattern of a `--` that stands between two characters that are not dashes.
pub open spec fn twodash_pattern() -> Seq<char> {
    "(^|[^-])--([^-]|$)"@
}

pub open spec fn emdash_replacement() -> Seq<char> {
    "${1}&mdash;${2}"@
}

/// Text as HTML: escaped, and with `--` made an em dash when the configuration asks for it.
pub open spec fn text_spec(c: Config, t: Seq<char>) -> Seq<char> {
    let e = escaped(t);
    if c.convert_emdash && find_from(e, 0, e.len() as int, seq!['-', '-']) is Some {
        match regex_replaced(twodash_pattern(), e, emdash_replacement()) {
            Some(x) => x,
            None => e,
        }
    } else {
        e
    }
}

impl<'a> Page<'a> {
    /// Text as HTML, escaped and nothing else; for code.
    pub fn render_plain_text(&self, text: &str) -> (r: String)
        ensures
            r@ == escaped(text@),
    {
        escape(text)
    }

    /// Text as HTML, with the transformations the configuration enables.
    pub fn render_text(&self, text: &str) -> (r: String)
        ensures
            r@ == text_spec(*self.config, text@),
    {
        let escaped_text = escape(text);
        if self.config.convert_emdash {
            let v = to_chars(escaped_text.as_str());
            let dd = vec!['-', '-'];
            assert(dd@ =~= seq!['-', '-']);
            if find(&v, 0, v.len(), dd.as_slice()).is_some() {
                return match regex_replace_all("(^|[^-])--([^-]|$)", escaped_text.as_str(), "${1}&mdash;${2}") {
                    Some(x) => x,
                    None => escaped_text,
                };
            }
        }
        escaped_text
    }
}

proof fn lemma_picture_index_bound(v: Seq<(String, String, Option<String>)>, url: Seq<char>, alt: Seq<char>)
    ensures
        picture_index(v, url, alt) matches Some(i) ==> 0 <= i < v.len() && v[i].0@ == url && v[i].1@ == alt,
    decreases v.len(),
{
    if v.len() > 0 && !(v.last().0@ == url && v.last().1@ == alt) {
        lemma_picture_index_bound(v.drop_last(), url, alt);
    }
}

fn find_picture(v: &Vec<(String, String, Option<String>)>, url: &str, alt: &str) -> (r: Option<usize>)
    ensures
        match r {
            Some(i) => picture_index(v@, url@, alt@) == Some(i as int) && i < v@.len(),
            None => picture_index(v@, url@, alt@) is None,
        },
{
    proof {
        lemma_picture_index_bound(v@, url@, alt@);
    }
    let mut i = v.len();
    assert(v@.take(i as int) =~= v@);
    while i > 0
        invariant
            i <= v@.len(),
            picture_index(v@, url@, alt@) == picture_index(v@.take(i as int), url@, alt@),
        decreases i,
    {
        assert(v@.take(i as int).drop_last() =~= v@.take(i - 1));
        let u = to_chars(v[i - 1].0.as_str());
        let a = to_chars(v[i - 1].1.as_str());
        if crate::chars::chars_equal(&u, url) && crate::chars::chars_equal(&a, alt) {
            return Some(i - 1);
        }
        i = i - 1;
    }
    None
}

pub open spec fn opt_str(o: Option<&str>) -> Option<Seq<char>> {
    match o {
        Some(s) => Some(s@),
        None => None,
    }
}

impl<'a> Page<'a> {
    /// Everything the page's rendering depends on.
    pub open spec fn ctx(&self) -> Ctx {
        Ctx {
            config: *self.config,
            tables: *self.tables,
            externals: *self.externals,
            class_prefix: self.highlighter.prefix(),
            graph: *self.graph,
            heading_delta: self.heading_delta,
        }
    }

    /// A link to the page with this title if it is exported, labeled with `label` or the page's
    /// output title; otherwise the label (or title) as text, or nothing when unexported links
    /// are to be left out.
    pub fn link_if_allowed_with_label(&self, page: &str, label: Option<&str>, omit_unexported_links: bool) -> (r: StringBuilder)
        ensures
            rendered(r) == link_spec(self.ctx(), page@, opt_str(label), omit_unexported_links),
    {
        let found = lookup_page(self.tables, page);
        let exported = match found {
            Some(p) => p.included,
            None => false,
        };
        if exported {
            let p = found.unwrap();
            let mut out = "<a href=\"".to_owned();
            out.append(escape(p.slug.as_str()).as_str());
            out.append("\">");
            let shown = match label {
                Some(l) => self.render_text(l),
                None => self.render_text(p.output_title.as_str()),
            };
            out.append(shown.as_str());
            out.append("</a>");
            StringBuilder::leaf(out)
        } else if omit_unexported_links {
            StringBuilder::Empty
        } else {
            let shown = match label {
                Some(l) => self.render_text(l),
                None => self.render_text(page),
            };
            StringBuilder::leaf(shown)
        }
    }

    /// A link to a page if it is exported (see `link_if_allowed_with_label`).
    pub fn link_if_allowed(&self, s: &str, omit_unexported_links: bool) -> (r: StringBuilder)
        ensures
            rendered(r) == link_spec(self.ctx(), s@, None, omit_unexported_links),
    {
        self.link_if_allowed_with_label(s, None, omit_unexported_links)
    }

    /// A hashtag: a link to its page, in a span classed with the tag when written `#.tag`.
    pub fn hashtag(&self, s: &str, dot: bool, omit_unexported_links: bool) -> (r: StringBuilder)
        ensures
            rendered(r) == hashtag_spec(self.ctx(), s@, dot, omit_unexported_links),
    {
        let anchor = self.link_if_allowed(s, omit_unexported_links);
        if dot && !anchor.is_empty() {
            let mut open = "<span class=\"".to_owned();
            open.append(s);
            open.append("\">");
            let mut parts: Vec<StringBuilder> = Vec::new();
            let a = StringBuilder::leaf(open);
            let ghost ra = rendered(a);
            let ghost rb = rendered(anchor);
            parts.push(a);
            parts.push(anchor);
            let c = StringBuilder::leaf("</span>".to_owned());
            let ghost rc = rendered(c);
            parts.push(c);
            assert(rendered_all(parts@) =~= seq![ra, rb, rc]);
            StringBuilder::group_of(parts)
        } else {
            anchor
        }
    }

    /// An image: its `<picture>` element when one was made for it, else a plain `<img>`.
    pub fn render_image(&self, url: &str, alt: &str) -> (r: Result<StringBuilder, RenderError>)
        ensures
            match image_spec(self.ctx(), url@, alt@) {
                Ok(x) => r matches Ok(sb) && rendered(sb) == x,
                Err(e) => r == Err::<StringBuilder, RenderError>(e),
            },
    {
        match find_picture(&self.externals.pictures, url, alt) {
            Some(i) => match &self.externals.pictures[i].2 {
                Some(h) => Ok(StringBuilder::leaf(h.clone())),
                None => Err(RenderError::Picture(self.externals.pictures[i].0.clone())),
            },
            None => {
                let mut out = "<img alt=\"".to_owned();
                out.append(escape(alt).as_str());
                out.append("\" src=\"");
                out.append(escape(url).as_str());
                out.append("\" />");
                Ok(StringBuilder::leaf(out))
            },
        }
    }

    /// A video player for the URL.
    pub fn render_video(&self, url: &str) -> (r: StringBuilder)
        ensures
            rendered(r) == video_spec(url@),
    {
        let mut out = "<video controls src=\"".to_owned();
        out.append(url_encode(url).as_str());
        out.append("\" width=\"800\" height=\"450\"></video>");
        StringBuilder::leaf(out)
    }
}

/// The positions of the blocks that are pages, in order.
pub open spec fn page_positions(blocks: Seq<Block>) -> Seq<int>
    decreases blocks.len(),
{
    if blocks.len() == 0 {
        Seq::empty()
    } else if blocks.last().page_title is Some {
        page_positions(blocks.drop_last()).push(blocks.len() - 1)
    } else {
        page_positions(blocks.drop_last())
    }
}

/// Whether a block has one of the tags.
pub open spec fn references_any(b: Block, refs: Seq<Seq<char>>) -> bool {
    exists|i: int, j: int| 0 <= i < b.tags@.len() && 0 <= j < refs.len() && (#[trigger] b.tags@[i])@ == #[trigger] refs[j]
}

/// The positions of the blocks with one of the tags, in order.
pub open spec fn referencing_positions(blocks: Seq<Block>, refs: Seq<Seq<char>>) -> Seq<int>
    decreases blocks.len(),
{
    if blocks.len() == 0 {
        Seq::empty()
    } else if references_any(blocks.last(), refs) {
        referencing_positions(blocks.drop_last(), refs).push(blocks.len() - 1)
    } else {
        referencing_positions(blocks.drop_last(), refs)
    }
}

pub open spec fn positions_view(v: Seq<usize>) -> Seq<int> {
    v.map_values(|k: usize| k as int)
}

fn has_reference(b: &Block, refs: &Vec<String>) -> (r: bool)
    ensures
        r == references_any(*b, crate::attr_map::texts(refs@)),
{
    let ghost rs = crate::attr_map::texts(refs@);
    let mut i: usize = 0;
    while i < b.tags.len()
        invariant
            i <= b.tags@.len(),
            rs == crate::attr_map::texts(refs@),
            forall|k: int, j: int| 0 <= k < i && 0 <= j < rs.len() ==> (#[trigger] b.tags@[k])@ != #[trigger] rs[j],
        decreases b.tags@.len() - i,
    {
        let t = to_chars(b.tags[i].as_str());
        let mut j: usize = 0;
        while j < refs.len()
            invariant
                i < b.tags@.len(),
                j <= refs@.len(),
                t@ == b.tags@[i as int]@,
                rs == crate::attr_map::texts(refs@),
                forall|k: int, l: int| 0 <= k < i && 0 <= l < rs.len() ==> (#[trigger] b.tags@[k])@ != #[trigger] rs[l],
                forall|l: int| 0 <= l < j ==> b.tags@[i as int]@ != #[trigger] rs[l],
            decreases refs@.len() - j,
        {
            if crate::chars::chars_equal(&t, refs[j].as_str()) {
                assert(b.tags@[i as int]@ == rs[j as int]);
                return true;
            }
            j = j + 1;
        }
        i = i + 1;
    }
    false
}

impl Graph {
    /// A graph with no blocks yet.
    pub fn new(content_style: ContentStyle, block_explicit_ordering: bool) -> (r: Graph)
        ensures
            r.blocks@.len() == 0,
            r.content_style == content_style,
            r.block_explicit_ordering == block_explicit_ordering,
    {
        Graph { blocks: Vec::new(), content_style, block_explicit_ordering }
    }

    /// Add a block; it takes the place of any earlier block with its id or uid.
    pub fn add_block(&mut self, block: Block)
        ensures
            final(self).blocks@ == old(self).blocks@.push(block),
            final(self).content_style == old(self).content_style,
            final(self).block_explicit_ordering == old(self).block_explicit_ordering,
    {
        self.blocks.push(block);
    }

    /// The block with this uid (see `block_by_uid`).
    pub fn block_from_uid(&self, uid: &str) -> (r: Option<&Block>)
        ensures
            match block_by_uid(self.blocks@, uid@) {
                Some(j) => r matches Some(b) && *b == self.blocks@[j],
                None => r is None,
            },
    {
        match find_block_by_uid(&self.blocks, uid) {
            Some(j) => Some(&self.blocks[j]),
            None => None,
        }
    }

    /// The positions of the blocks that are pages.
    pub fn pages(&self) -> (r: Vec<usize>)
        ensures
            positions_view(r@) == page_positions(self.blocks@),
    {
        let mut out: Vec<usize> = Vec::new();
        let mut i: usize = 0;
        while i < self.blocks.len()
            invariant
                i <= self.blocks@.len(),
                positions_view(out@) == page_positions(self.blocks@.take(i as int)),
            decreases self.blocks@.len() - i,
        {
            assert(self.blocks@.take(i + 1).drop_last() =~= self.blocks@.take(i as int));
            let ghost o0 = out@;
            if self.blocks[i].page_title.is_some() {
                out.push(i);
                assert(positions_view(out@) =~= positions_view(o0).push(i as int));
            }
            i = i + 1;
        }
        assert(self.blocks@.take(self.blocks@.len() as int) =~= self.blocks@);
        out
    }

    /// The positions of the blocks tagged with one of `references`.
    pub fn blocks_with_references(&self, references: &Vec<String>) -> (r: Vec<usize>)
        ensures
            positions_view(r@) == referencing_positions(self.blocks@, crate::attr_map::texts(references@)),
    {
        let ghost rs = crate::attr_map::texts(references@);
        let mut out: Vec<usize> = Vec::new();
        let mut i: usize = 0;
        while i < self.blocks.len()
            invariant
                i <= self.blocks@.len(),
                rs == crate::attr_map::texts(references@),
                positions_view(out@) == referencing_positions(self.blocks@.take(i as int), rs),
            decreases self.blocks@.len() - i,
        {
            assert(self.blocks@.take(i + 1).drop_last() =~= self.blocks@.take(i as int));
            let ghost o0 = out@;
            if has_reference(&self.blocks[i], references) {
                out.push(i);
                assert(positions_view(out@) =~= positions_view(o0).push(i as int));
            }
            i = i + 1;
        }
        assert(self.blocks@.take(self.blocks@.len() as int) =~= self.blocks@);
        out
    }
}

} // verus!
