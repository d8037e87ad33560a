//! What a page script can see and change of a page and of its blocks.
use vstd::prelude::*;

use crate::attr_map::{clone_strings, texts, AttrMap};
use crate::chars::to_chars;
use crate::content::{BlockContent, ContentError};
use crate::graph::{Block, BlockInclude, ViewType};

verus! {

/// Whether a page may be embedded in other pages.
#[derive(Debug, Copy, Clone, PartialEq, Eq, Structural)]
pub enum AllowEmbed {
    Default,
    Yes,
    No,
}

impl Default for AllowEmbed {
    fn default() -> (r: AllowEmbed)
        ensures
            r == AllowEmbed::Default,
    {
        AllowEmbed::Default
    }
}

/// Which template renders a page.
#[derive(Debug, Clone)]
pub enum TemplateSelection {
    /// The default template defined in the config
    Default,
    /// The filename of a template to render
    File(String),
    /// A template value itself.
    Value(String),
}

/// The settings a script gives a page.
#[derive(Debug)]
pub struct PageConfig {
    pub path_base: String,
    pub path_name: String,
    pub url_base: String,
    pub url_name: String,
    pub title: String,
    pub attrs: AttrMap,
    pub tags: Vec<String>,
    pub is_journal: bool,
    pub template: TemplateSelection,
    pub picture_template: TemplateSelection,
    pub picture_upload_profile: Option<String>,
    pub included: bool,
    pub allow_embedding: AllowEmbed,
    pub top_header_level: usize,
    pub root_block: usize,
}

/// The settings a script gives a block.
#[derive(Debug)]
pub struct BlockConfig {
    pub id: usize,
    pub string: String,
    pub heading: usize,
    pub view_type: ViewType,
    pub include_type: BlockInclude,
    pub tags: Vec<String>,
    pub attrs: AttrMap,
    pub content_element: Option<String>,
    pub wrapper_element: Option<String>,
    pub extra_classes: Vec<String>,
    pub edited: bool,
}

pub open spec fn opt_text(o: Option<String>) -> Option<Seq<char>> {
    match o {
        Some(s) => Some(s@),
        None => None,
    }
}

fn clone_opt(o: &Option<String>) -> (r: Option<String>)
    ensures
        r == *o,
{
    match o {
        Some(s) => Some(s.clone()),
        None => None,
    }
}

/// A copy of an attribute map.
pub fn clone_attrs(m: &AttrMap) -> (r: AttrMap)
    ensures
        r@ == m@,
{
    let mut out: Vec<(String, Vec<String>)> = Vec::new();
    let mut i: usize = 0;
    while i < m.entries.len()
        invariant
            i <= m.entries@.len(),
            crate::attr_map::entries_map(out@) == crate::attr_map::entries_map(m.entries@.take(i as int)),
        decreases m.entries@.len() - i,
    {
        let ghost before = out@;
        let k = m.entries[i].0.clone();
        let v = clone_strings(&m.entries[i].1);
        out.push((k, v));
        assert(out@.drop_last() =~= before);
        assert(m.entries@.take(i + 1).drop_last() =~= m.entries@.take(i as int));
        assert(texts(v@) =~= texts(m.entries@[i as int].1@));
        i = i + 1;
    }
    assert(m.entries@.take(m.entries@.len() as int) =~= m.entries@);
    AttrMap { entries: out }
}

/// Whether `v` holds a string equal to `s`.
fn contains_text(v: &Vec<String>, s: &String) -> (r: bool)
    ensures
        r == texts(v@).contains(s@),
{
    let mut i: usize = 0;
    while i < v.len()
        invariant
            i <= v@.len(),
            forall|k: int| 0 <= k < i ==> v@[k]@ != s@,
        decreases v@.len() - i,
    {
        if v[i] == *s {
            assert(texts(v@)[i as int] == s@);
            return true;
        }
        i = i + 1;
    }
    assert(!texts(v@).contains(s@)) by {
        if texts(v@).contains(s@) {
            let k = choose|k: int| 0 <= k < texts(v@).len() && texts(v@)[k] == s@;
            assert(v@[k]@ == s@);
        }
    }
    false
}

/// An element name, or none for an empty one.
pub open spec fn element_setting(e: Seq<char>) -> Option<Seq<char>> {
    if e.len() == 0 {
        None
    } else {
        Some(e)
    }
}

/// The first value of an attribute, or empty.
pub open spec fn first_or_empty(m: Map<Seq<char>, Seq<Seq<char>>>, k: Seq<char>) -> Seq<char> {
    if m.contains_key(k) && m[k].len() > 0 {
        m[k][0]
    } else {
        Seq::empty()
    }
}

fn attr_first(attrs: &AttrMap, attr: &str) -> (r: String)
    ensures
        r@ == first_or_empty(attrs@, attr@),
{
    match attrs.get(attr) {
        Some(v) => if v.len() > 0 {
            v[0].clone()
        } else {
            String::new()
        },
        None => String::new(),
    }
}

impl BlockConfig {
    /// The settings of a block, as a script first sees them.
    pub fn from_block(block: &Block) -> (r: BlockConfig)
        ensures
            r.id == block.id,
            r.string@ == block.contents.string@,
            r.heading == block.heading,
            r.view_type == block.view_type,
            r.include_type == block.include_type,
            r.tags@ == block.tags@,
            r.attrs@ == block.attrs@,
            r.content_element == block.content_element,
            r.wrapper_element == block.wrapper_element,
            r.extra_classes@ == block.extra_classes@,
            !r.edited,
    {
        BlockConfig {
            id: block.id,
            string: block.contents.string.clone(),
            heading: block.heading,
            view_type: block.view_type,
            include_type: block.include_type,
            tags: clone_strings(&block.tags),
            attrs: clone_attrs(&block.attrs),
            content_element: clone_opt(&block.content_element),
            wrapper_element: clone_opt(&block.wrapper_element),
            extra_classes: clone_strings(&block.extra_classes),
            edited: false,
        }
    }

    /// Write the settings back to the block if the script changed any; its text is parsed again.
    pub fn apply_to_block(self, block: &mut Block) -> (r: Result<(), ContentError>)
        ensures
            !self.edited ==> r is Ok && *final(block) == *old(block),
            self.edited && crate::parse_string::parse_spec(old(block).contents.style, self.string@)
                is None ==> r is Err && *final(block) == *old(block),
            self.edited && crate::parse_string::parse_spec(old(block).contents.style, self.string@)
                is Some ==> ({
                let b = *final(block);
                let o = *old(block);
                &&& r is Ok
                &&& b.contents.string@ == self.string@
                &&& b.contents.wf()
                &&& b.contents.style == o.contents.style
                &&& b.heading == self.heading
                &&& b.view_type == self.view_type
                &&& b.include_type == self.include_type
                &&& b.tags == self.tags
                &&& b.attrs == self.attrs
                &&& b.content_element == self.content_element
                &&& b.wrapper_element == self.wrapper_element
                &&& b.extra_classes == self.extra_classes
                &&& b.id == o.id
                &&& b.children == o.children
                &&& b.parent == o.parent
            }),
    {
        if self.edited {
            let contents = BlockContent::new_parsed(block.contents.style, self.string)?;
            block.contents = contents;
            block.heading = self.heading;
            block.view_type = self.view_type;
            block.include_type = self.include_type;
            block.tags = self.tags;
            block.attrs = self.attrs;
            block.content_element = self.content_element;
            block.wrapper_element = self.wrapper_element;
            block.extra_classes = self.extra_classes;
        }
        Ok(())
    }

    /// Set the text of the block.
    pub fn set_string(&mut self, value: String)
        ensures
            final(self).string == value,
            final(self).edited,
            final(self).heading == old(self).heading,
            final(self).attrs == old(self).attrs,
    {
        self.string = value;
        self.edited = true;
    }

    /// Set the heading level; a negative level wraps around as a cast to `usize` does.
    pub fn set_heading(&mut self, value: i64)
        ensures
            final(self).heading == value as usize,
            final(self).edited,
            final(self).string == old(self).string,
    {
        self.heading = #[verifier::truncate] (value as usize);
        self.edited = true;
    }

    pub fn set_view_type(&mut self, value: ViewType)
        ensures
            final(self).view_type == value,
            final(self).edited,
            final(self).string == old(self).string,
    {
        self.view_type = value;
        self.edited = true;
    }

    pub fn set_include(&mut self, include_type: BlockInclude)
        ensures
            final(self).include_type == include_type,
            final(self).edited,
            final(self).string == old(self).string,
    {
        self.include_type = include_type;
        self.edited = true;
    }

    pub fn set_tags(&mut self, tags: Vec<String>)
        ensures
            final(self).tags == tags,
            final(self).edited,
            final(self).string == old(self).string,
    {
        self.tags = tags;
        self.edited = true;
    }

    /// Set the element that wraps the block's content; an empty name means none.
    pub fn set_content_element(&mut self, element: String)
        ensures
            opt_text(final(self).content_element) == element_setting(element@),
            final(self).edited,
            final(self).string == old(self).string,
    {
        if element.as_str().is_empty() {
            self.content_element = None;
        } else {
            self.content_element = Some(element);
        }
        self.edited = true;
    }

    /// Set the element that wraps the whole block; an empty name means none.
    pub fn set_wrapper_element(&mut self, element: String)
        ensures
            opt_text(final(self).wrapper_element) == element_setting(element@),
            final(self).edited,
            final(self).string == old(self).string,
    {
        if element.as_str().is_empty() {
            self.wrapper_element = None;
        } else {
            self.wrapper_element = Some(element);
        }
        self.edited = true;
    }

    pub fn set_class(&mut self, classes: Vec<String>)
        ensures
            final(self).extra_classes == classes,
            final(self).edited,
            final(self).string == old(self).string,
    {
        self.extra_classes = classes;
        self.edited = true;
    }

    /// The first value of an attribute, or empty.
    pub fn get_attr_first(&self, attr: &str) -> (r: String)
        ensures
            r@ == first_or_empty(self.attrs@, attr@),
    {
        attr_first(&self.attrs, attr)
    }

    /// Remove an attribute; the block counts as changed only if it had it.
    pub fn remove_attr(&mut self, name: &str)
        ensures
            final(self).attrs@ == old(self).attrs@.remove(name@),
            final(self).edited == (old(self).edited || old(self).attrs@.contains_key(name@)),
            final(self).string == old(self).string,
    {
        let removed = self.attrs.remove(name).is_some();
        if removed {
            self.edited = true;
        }
    }
}

impl PageConfig {
    /// The settings of a page before its script runs: not included, not specially embeddable,
    /// named after its title's slug, with the page block's attributes and tags.
    pub fn for_page(title: String, slug: String, page_block: &Block, top_header_level: usize, root_block: usize) -> (r: PageConfig)
        ensures
            r.title == title,
            r.url_name == slug,
            r.path_base@.len() == 0,
            r.path_name@.len() == 0,
            r.url_base@.len() == 0,
            !r.included,
            r.allow_embedding == AllowEmbed::Default,
            r.is_journal == page_block.is_journal,
            r.attrs@ == page_block.attrs@,
            r.tags@ == page_block.tags@,
            r.top_header_level == top_header_level,
            r.root_block == root_block,
            r.template is Default,
            r.picture_template is Default,
            r.picture_upload_profile is None,
    {
        PageConfig {
            included: false,
            path_base: String::new(),
            path_name: String::new(),
            url_base: String::new(),
            url_name: slug,
            title,
            template: TemplateSelection::Default,
            picture_template: TemplateSelection::Default,
            picture_upload_profile: None,
            is_journal: page_block.is_journal,
            attrs: clone_attrs(&page_block.attrs),
            tags: clone_strings(&page_block.tags),
            allow_embedding: AllowEmbed::Default,
            top_header_level,
            root_block,
        }
    }

    /// Add a tag unless the page has it already.
    pub fn add_tag(&mut self, value: String)
        ensures
            texts(old(self).tags@).contains(value@) ==> final(self).tags@ == old(self).tags@,
            !texts(old(self).tags@).contains(value@) ==> final(self).tags@ == old(self).tags@.push(
                value,
            ),
            final(self).attrs == old(self).attrs,
    {
        if !contains_text(&self.tags, &value) {
            self.tags.push(value);
        }
    }

    /// Add each of the tags that the page does not have yet, in order.
    pub fn add_tags(&mut self, values: Vec<String>)
        ensures
            final(self).tags@.len() >= old(self).tags@.len(),
            final(self).tags@.subrange(0, old(self).tags@.len() as int) == old(self).tags@,
            forall|i: int| 0 <= i < values@.len() ==> texts(final(self).tags@).contains(#[trigger] values@[i]@),
            forall|i: int| 0 <= i < final(self).tags@.len() ==> texts(old(self).tags@).contains(
                #[trigger] final(self).tags@[i]@,
            ) || texts(values@).contains(final(self).tags@[i]@),
    {
        let ghost start = self.tags@;
        assert(self.tags@.subrange(0, start.len() as int) =~= start);
        assert forall|k: int| 0 <= k < self.tags@.len() implies texts(start).contains(
            #[trigger] self.tags@[k]@,
        ) by {
            assert(texts(start)[k] == self.tags@[k]@);
        }
        let mut i: usize = 0;
        while i < values.len()
            invariant
                i <= values@.len(),
                self.tags@.len() >= start.len(),
                self.tags@.subrange(0, start.len() as int) == start,
                forall|k: int| 0 <= k < i ==> texts(self.tags@).contains(#[trigger] values@[k]@),
                forall|k: int| 0 <= k < self.tags@.len() ==> texts(start).contains(#[trigger] self.tags@[k]@) || texts(values@).contains(self.tags@[k]@),
            decreases values@.len() - i,
        {
            let ghost before = self.tags@;
            let v = values[i].clone();
            if !contains_text(&self.tags, &v) {
                self.tags.push(v);
                assert(texts(self.tags@)[self.tags@.len() - 1] == values@[i as int]@);
                assert(texts(values@)[i as int] == values@[i as int]@);
            }
            assert forall|k: int| 0 <= k <= i implies texts(self.tags@).contains(#[trigger] values@[k]@) by {
                if k < i {
                    let w = choose|w: int| 0 <= w < texts(before).len() && texts(before)[w] == values@[k]@;
                    assert(texts(self.tags@)[w] == texts(before)[w]);
                } else {
                    if texts(before).contains(values@[k]@) {
                        let w = choose|w: int| 0 <= w < texts(before).len() && texts(before)[w] == values@[k]@;
                        assert(texts(self.tags@)[w] == texts(before)[w]);
                    }
                }
            }
            assert(self.tags@.subrange(0, start.len() as int) =~= start);
            i = i + 1;
        }
    }

    /// Remove every occurrence of a tag.
    pub fn remove_tag(&mut self, value: &String)
        ensures
            texts(final(self).tags@) == texts(old(self).tags@).filter(|t: Seq<char>| t != value@),
    {
        let mut kept: Vec<String> = Vec::new();
        let mut i: usize = 0;
        let ghost start = texts(self.tags@);
        while i < self.tags.len()
            invariant
                i <= self.tags@.len(),
                start == texts(self.tags@),
                texts(kept@) == start.take(i as int).filter(|t: Seq<char>| t != value@),
            decreases self.tags@.len() - i,
        {
            proof {
                assert(start.take(i as int).push(start[i as int]) =~= start.take(i + 1));
                start.take(i as int).lemma_filter_push(start[i as int], |t: Seq<char>| t != value@);
            }
            let ghost before = texts(kept@);
            if self.tags[i] != *value {
                kept.push(self.tags[i].clone());
                assert(texts(kept@) =~= before.push(start[i as int]));
            }
            i = i + 1;
        }
        assert(start.take(self.tags@.len() as int) =~= start);
        self.tags = kept;
    }

    /// Set an attribute to a single value.
    pub fn set_attr(&mut self, attr: String, value: String)
        ensures
            final(self).attrs@ == old(self).attrs@.insert(attr@, seq![value@]),
            final(self).tags == old(self).tags,
    {
        let mut v: Vec<String> = Vec::new();
        v.push(value);
        assert(texts(v@) =~= seq![value@]);
        self.attrs.insert(attr, v);
    }

    /// Set an attribute's values.
    pub fn set_attr_values(&mut self, attr: String, values: Vec<String>)
        ensures
            final(self).attrs@ == old(self).attrs@.insert(attr@, texts(values@)),
            final(self).tags == old(self).tags,
    {
        self.attrs.insert(attr, values);
    }

    /// The first value of an attribute, or empty.
    pub fn get_attr_first(&self, attr: &str) -> (r: String)
        ensures
            r@ == first_or_empty(self.attrs@, attr@),
    {
        attr_first(&self.attrs, attr)
    }

    /// Set the heading level of the page's top headings; a negative level wraps around as a
    /// cast to `usize` does.
    pub fn set_top_header_level(&mut self, value: i64)
        ensures
            final(self).top_header_level == value as usize,
            final(self).tags == old(self).tags,
    {
        self.top_header_level = #[verifier::truncate] (value as usize);
    }

    /// Whether the page is kept for output: it is included, or it may be embedded.
    pub fn is_kept(&self) -> (r: bool)
        ensures
            r == (self.included || self.allow_embedding == AllowEmbed::Yes),
    {
        self.included || self.allow_embedding == AllowEmbed::Yes
    }
}

/// Whether a page may be embedded: an included page unless it says no, a page that is not
/// included only if it says yes.
pub open spec fn embed_allowed(included: bool, allow: AllowEmbed) -> bool {
    match allow {
        AllowEmbed::Yes => true,
        AllowEmbed::No => false,
        AllowEmbed::Default => included,
    }
}

pub fn allows_embedding(included: bool, allow: AllowEmbed) -> (r: bool)
    ensures
        r == embed_allowed(included, allow),
{
    match (included, allow) {
        (true, AllowEmbed::Yes) | (true, AllowEmbed::Default) => true,
        (true, AllowEmbed::No) => false,
        (false, AllowEmbed::Yes) => true,
        (false, AllowEmbed::No) | (false, AllowEmbed::Default) => false,
    }
}

/// The tags a page has after `add_tag`.
pub open spec fn tags_after_add(tags: Seq<Seq<char>>, value: Seq<char>) -> Seq<Seq<char>> {
    if tags.contains(value) {
        tags
    } else {
        tags.push(value)
    }
}

/// Adding a tag twice is adding it once, and the page then has it.
pub proof fn law_add_tag_idempotent(tags: Seq<Seq<char>>, value: Seq<char>)
    ensures
        tags_after_add(tags_after_add(tags, value), value) == tags_after_add(tags, value),
        tags_after_add(tags, value).contains(value),
{
    if !tags.contains(value) {
        assert(tags.push(value)[tags.len() as int] == value);
    }
}

/// After `remove_tag` the page no longer has the tag.
pub proof fn law_removed_tag_is_gone(tags: Seq<Seq<char>>, value: Seq<char>)
    ensures
        !tags.filter(|t: Seq<char>| t != value).contains(value),
{
    let f = tags.filter(|t: Seq<char>| t != value);
    if f.contains(value) {
        let i = choose|i: int| 0 <= i < f.len() && f[i] == value;
        tags.filter_lemma(|t: Seq<char>| t != value);
        assert((|t: Seq<char>| t != value)(f[i]));
    }
}

/// The first value of an attribute that was just set is the value set.
pub proof fn law_first_after_set_attr(attrs: Map<Seq<char>, Seq<Seq<char>>>, attr: Seq<char>, value: Seq<char>)
    ensures
        first_or_empty(attrs.insert(attr, seq![value]), attr) == value,
{
}

/// The position of block `id` among a page's blocks.
pub open spec fn block_pos(page: crate::graph::ParsedPage, id: int) -> Option<int> {
    if page.root_block <= id < page.root_block + page.blocks@.len() {
        Some(id - page.root_block)
    } else {
        None
    }
}

/// The blocks a script's `each_block` visits from block `id` at `depth`, with their depths: the
/// block, then, while the depth below it is at most `max_depth`, its children's walks in order;
/// nothing when a block is not in the page.
pub open spec fn walk_spec(page: crate::graph::ParsedPage, id: int, depth: int, max_depth: int) -> Option<Seq<(usize, i64)>>
    decreases max_depth - depth, 1int, 0int,
{
    match block_pos(page, id) {
        None => None,
        Some(k) => if depth < max_depth {
            match walk_children(page, page.blocks@[k].children@, page.blocks@[k].children@.len() as int, depth + 1, max_depth) {
                Some(rest) => Some(seq![(id as usize, depth as i64)] + rest),
                None => None,
            }
        } else {
            Some(seq![(id as usize, depth as i64)])
        },
    }
}

/// The walks of the first `n` of `children`, at `depth`, one after another.
pub open spec fn walk_children(page: crate::graph::ParsedPage, children: Seq<usize>, n: int, depth: int, max_depth: int) -> Option<Seq<(usize, i64)>>
    decreases max_depth - depth + 1, 0int, n,
{
    if n <= 0 || n > children.len() || depth > max_depth {
        Some(Seq::empty())
    } else {
        match (walk_children(page, children, n - 1, depth, max_depth), walk_spec(page, children[n - 1] as int, depth, max_depth)) {
            (Some(a), Some(b)) => Some(a + b),
            _ => None,
        }
    }
}

fn walk_from(page: &crate::graph::ParsedPage, id: usize, depth: i64, max_depth: i64, out: &mut Vec<(usize, i64)>) -> (ok: bool)
    requires
        depth <= max_depth,
    ensures
        match walk_spec(*page, id as int, depth as int, max_depth as int) {
            Some(w) => ok && final(out)@ == old(out)@ + w,
            None => !ok,
        },
    decreases max_depth - depth, 1int, 0int,
{
    if id < page.root_block || id - page.root_block >= page.blocks.len() {
        return false;
    }
    let k = id - page.root_block;
    let ghost o0 = out@;
    out.push((id, depth));
    if depth < max_depth {
        let children = &page.blocks[k].children;
        let ghost ch = children@;
        let mut i: usize = 0;
        assert(walk_children(*page, ch, 0, depth + 1, max_depth as int) == Some(Seq::<(usize, i64)>::empty()));
        let ghost whole = walk_spec(*page, id as int, depth as int, max_depth as int);
        assert(whole == match walk_children(*page, ch, ch.len() as int, depth + 1, max_depth as int) {
            Some(rest) => Some(seq![(id, depth)] + rest),
            None => None,
        });
        assert(out@ =~= o0 + seq![(id, depth)] + Seq::<(usize, i64)>::empty());
        while i < children.len()
            invariant
                ch == children@,
                i <= ch.len(),
                depth < max_depth,
                whole == walk_spec(*page, id as int, depth as int, max_depth as int),
                whole == match walk_children(*page, ch, ch.len() as int, depth + 1, max_depth as int) {
                    Some(rest) => Some(seq![(id, depth)] + rest),
                    None => None,
                },
                walk_children(*page, ch, i as int, depth + 1, max_depth as int) matches Some(a)
                    && out@ == o0 + seq![(id, depth)] + a,
            decreases ch.len() - i,
        {
            let ghost before = out@;
            let ghost a = walk_children(*page, ch, i as int, depth + 1, max_depth as int)->Some_0;
            let ok = walk_from(page, children[i], depth + 1, max_depth, out);
            if !ok {
                proof {
                    lemma_walk_children_none_extends(*page, ch, i as int + 1, depth + 1, max_depth as int);
                }
                return false;
            }
            proof {
                let b = walk_spec(*page, ch[i as int] as int, depth + 1, max_depth as int)->Some_0;
                assert(walk_children(*page, ch, i + 1, depth + 1, max_depth as int) == Some(a + b));
                assert(out@ =~= o0 + seq![(id, depth)] + (a + b));
            }
            i = i + 1;
        }
        true
    } else {
        true
    }
}

proof fn lemma_walk_children_none_extends(page: crate::graph::ParsedPage, ch: Seq<usize>, n: int, depth: int, max_depth: int)
    requires
        0 <= n <= ch.len(),
        depth <= max_depth,
        walk_children(page, ch, n, depth, max_depth) is None,
    ensures
        walk_children(page, ch, ch.len() as int, depth, max_depth) is None,
    decreases ch.len() - n,
{
    if n < ch.len() {
        lemma_walk_children_none_extends(page, ch, n + 1, depth, max_depth);
    }
}

/// Entry `q` of a walk is one level above entry `p`, comes before it, and is a block that lists
/// `p`'s block among its children.
pub open spec fn parent_entry(page: crate::graph::ParsedPage, w: Seq<(usize, i64)>, p: int, q: int) -> bool {
    &&& 0 <= q < p
    &&& w[q].1 == w[p].1 - 1
    &&& block_pos(page, w[q].0 as int) matches Some(k) && page.blocks@[k].children@.contains(w[p].0)
}

/// Some entry of the walk is `p`'s parent entry (see `parent_entry`).
pub open spec fn has_parent_entry(page: crate::graph::ParsedPage, w: Seq<(usize, i64)>, p: int) -> bool {
    exists|q: int| #[trigger] parent_entry(page, w, p, q)
}

/// Every entry of a walk is at a depth from `lo` to `hi`.
pub open spec fn depths_within(w: Seq<(usize, i64)>, lo: int, hi: int) -> bool {
    forall|p: int| 0 <= p < w.len() ==> lo <= #[trigger] w[p].1 <= hi
}

proof fn lemma_walk_shape(page: crate::graph::ParsedPage, id: int, depth: int, max_depth: int)
    requires
        0 <= id <= usize::MAX,
        0 <= depth <= max_depth <= i64::MAX,
    ensures
        walk_spec(page, id, depth, max_depth) matches Some(w) ==> {
            &&& w.len() > 0
            &&& w[0] == (id as usize, depth as i64)
            &&& depths_within(w, depth, max_depth)
            &&& forall|p: int| 0 < p < w.len() ==> #[trigger] has_parent_entry(page, w, p)
        },
    decreases max_depth - depth, 1int, 0int,
{
    match block_pos(page, id) {
        None => {},
        Some(k) => if depth < max_depth {
            let ch = page.blocks@[k].children@;
            lemma_walk_children_shape(page, ch, ch.len() as int, depth + 1, max_depth);
            match walk_children(page, ch, ch.len() as int, depth + 1, max_depth) {
                Some(rest) => {
                    let w = seq![(id as usize, depth as i64)] + rest;
                    assert forall|p: int| 0 < p < w.len() implies #[trigger] has_parent_entry(page, w, p) by {
                        assert(w[p] == rest[p - 1]);
                        if rest[p - 1].1 == depth + 1 && ch.contains(rest[p - 1].0) {
                            assert(w[0].0 as int == id);
                            assert(block_pos(page, w[0].0 as int) == Some(k));
                            assert(parent_entry(page, w, p, 0));
                        } else {
                            assert(has_parent_entry(page, rest, p - 1));
                            let q = choose|q: int| #[trigger] parent_entry(page, rest, p - 1, q);
                            assert(w[q + 1] == rest[q]);
                            assert(parent_entry(page, w, p, q + 1));
                        }
                    }
                    assert(depths_within(w, depth, max_depth)) by {
                        assert forall|p: int| 0 <= p < w.len() implies depth <= #[trigger] w[p].1 <= max_depth by {
                            if p > 0 {
                                assert(w[p] == rest[p - 1]);
                            }
                        }
                    }
                },
                None => {},
            }
        } else {
            let w = seq![(id as usize, depth as i64)];
            assert(depths_within(w, depth, max_depth));
        },
    }
}

proof fn lemma_walk_children_shape(page: crate::graph::ParsedPage, ch: Seq<usize>, n: int, depth: int, max_depth: int)
    requires
        1 <= depth <= max_depth <= i64::MAX,
    ensures
        walk_children(page, ch, n, depth, max_depth) matches Some(w) ==> {
            &&& depths_within(w, depth, max_depth)
            &&& forall|p: int|
                0 <= p < w.len() ==> (w[p].1 == depth && ch.contains(w[p].0)) || #[trigger] has_parent_entry(page, w, p)
        },
    decreases max_depth - depth + 1, 0int, n,
{
    if !(n <= 0 || n > ch.len() || depth > max_depth) {
        lemma_walk_children_shape(page, ch, n - 1, depth, max_depth);
        lemma_walk_shape(page, ch[n - 1] as int, depth, max_depth);
        match (walk_children(page, ch, n - 1, depth, max_depth), walk_spec(page, ch[n - 1] as int, depth, max_depth)) {
            (Some(a), Some(b)) => {
                let w = a + b;
                assert forall|p: int|
                    0 <= p < w.len() implies (w[p].1 == depth && ch.contains(w[p].0)) || #[trigger] has_parent_entry(page, w, p) by {
                    if p < a.len() {
                        assert(w[p] == a[p]);
                        if !(a[p].1 == depth && ch.contains(a[p].0)) {
                            assert(has_parent_entry(page, a, p));
                            let q = choose|q: int| #[trigger] parent_entry(page, a, p, q);
                            assert(w[q] == a[q]);
                            assert(parent_entry(page, w, p, q));
                        }
                    } else {
                        let p2 = p - a.len();
                        assert(w[p] == b[p2]);
                        if p2 == 0 {
                            assert(ch[n - 1] == b[0].0);
                            assert(ch.contains(w[p].0));
                        } else {
                            assert(has_parent_entry(page, b, p2));
                            let q = choose|q: int| #[trigger] parent_entry(page, b, p2, q);
                            assert(w[q + a.len()] == b[q]);
                            assert(parent_entry(page, w, p, q + a.len()));
                        }
                    }
                }
                assert forall|p: int| 0 <= p < w.len() implies depth <= #[trigger] w[p].1 <= max_depth by {
                    if p < a.len() {
                        assert(w[p] == a[p]);
                    } else {
                        assert(w[p] == b[p - a.len()]);
                    }
                }
            },
            _ => {},
        }
    }
}

/// A script's walk of a page starts at the page's own block at depth 0, goes no deeper than
/// the limit, and reaches each other block from a block one level above it, visited before it,
/// that lists it among its children.
pub proof fn law_walk_visits_parents_first(page: crate::graph::ParsedPage, max_depth: i64)
    requires
        max_depth >= 0,
    ensures
        walk_spec(page, page.root_block as int, 0, max_depth as int) matches Some(w) ==> {
            &&& w.len() > 0
            &&& w[0] == (page.root_block, 0i64)
            &&& depths_within(w, 0, max_depth as int)
            &&& forall|p: int| 0 < p < w.len() ==> #[trigger] has_parent_entry(page, w, p)
        },
{
    lemma_walk_shape(page, page.root_block as int, 0, max_depth as int);
}

/// The blocks of a page form a tree: ids are consecutive from the page's own block, each child
/// that a block lists is a block of the page that names it as its parent, no block lists a
/// child twice, and every block's parent comes before it.
pub open spec fn page_is_tree(page: crate::graph::ParsedPage) -> bool {
    &&& page.wf()
    &&& forall|k: int, j: int|
        0 <= k < page.blocks@.len() && 0 <= j < page.blocks@[k].children@.len() ==> (block_pos(
            page,
            #[trigger] page.blocks@[k].children@[j] as int,
        ) matches Some(m) && page.blocks@[m].parent == Some(page.blocks@[k].id))
    &&& forall|k: int| 0 <= k < page.blocks@.len() ==> (#[trigger] page.blocks@[k].children@).no_duplicates()
    &&& forall|k: int|
        0 <= k < page.blocks@.len() ==> ((#[trigger] page.blocks@[k]).parent matches Some(p) ==> p
            < page.blocks@[k].id)
}

/// Block `e` is block `c` or lies under it, following parents up from `e`.
pub open spec fn lies_under(page: crate::graph::ParsedPage, e: int, c: int) -> bool
    decreases e,
{
    if e == c {
        true
    } else {
        match block_pos(page, e) {
            Some(m) => match page.blocks@[m].parent {
                Some(p) => if 0 <= p < e {
                    lies_under(page, p as int, c)
                } else {
                    false
                },
                None => false,
            },
            None => false,
        }
    }
}

proof fn lemma_under_not_below(page: crate::graph::ParsedPage, e: int, c: int)
    requires
        lies_under(page, e, c),
    ensures
        e >= c,
    decreases e,
{
    if e != c {
        let m = block_pos(page, e)->Some_0;
        let p = page.blocks@[m].parent->Some_0;
        lemma_under_not_below(page, p as int, c);
    }
}

/// What lies under a child of a block lies under no other child of it.
proof fn lemma_siblings_apart(page: crate::graph::ParsedPage, e: int, c1: int, c2: int, k: usize)
    requires
        c1 != c2,
        block_pos(page, c1) matches Some(m) && page.blocks@[m].parent == Some(k),
        block_pos(page, c2) matches Some(m) && page.blocks@[m].parent == Some(k),
        k < c1,
        k < c2,
        lies_under(page, e, c1),
    ensures
        !lies_under(page, e, c2),
    decreases e,
{
    if lies_under(page, e, c2) {
        if e == c1 {
            let m = block_pos(page, c1)->Some_0;
            assert(page.blocks@[m].parent == Some(k));
            lemma_under_not_below(page, k as int, c2);
        } else if e == c2 {
            let m = block_pos(page, c2)->Some_0;
            assert(page.blocks@[m].parent == Some(k));
            lemma_under_not_below(page, k as int, c1);
        } else {
            let m = block_pos(page, e)->Some_0;
            let p = page.blocks@[m].parent->Some_0;
            lemma_siblings_apart(page, p as int, c1, c2, k);
        }
    }
}

/// Block `e` lies under one of the first `n` children of the block at position `k`.
pub open spec fn under_some_child(page: crate::graph::ParsedPage, k: int, n: int, e: int) -> bool {
    exists|j: int| 0 <= j < n && lies_under(page, e, #[trigger] page.blocks@[k].children@[j] as int)
}

/// No block occurs twice in a walk.
pub open spec fn visits_once(w: Seq<(usize, i64)>) -> bool {
    forall|p: int, q: int| 0 <= p < q < w.len() ==> #[trigger] w[p].0 != #[trigger] w[q].0
}

proof fn lemma_walk_once(page: crate::graph::ParsedPage, id: int, depth: int, max_depth: int)
    requires
        page_is_tree(page),
        0 <= id <= usize::MAX,
    ensures
        walk_spec(page, id, depth, max_depth) matches Some(w) ==> visits_once(w) && forall|p: int|
            0 <= p < w.len() ==> #[trigger] lies_under(page, w[p].0 as int, id),
    decreases max_depth - depth, 1int, 0int,
{
    match block_pos(page, id) {
        None => {},
        Some(k) => if depth < max_depth {
            let blk = page.blocks@[k];
            let ch = blk.children@;
            assert(blk.id == page.root_block + k);
            lemma_walk_children_once(page, k, ch.len() as int, depth + 1, max_depth);
            match walk_children(page, ch, ch.len() as int, depth + 1, max_depth) {
                Some(rest) => {
                    let w = seq![(id as usize, depth as i64)] + rest;
                    assert forall|p: int| 0 <= p < w.len() implies #[trigger] lies_under(page, w[p].0 as int, id) by {
                        if p > 0 {
                            assert(w[p] == rest[p - 1]);
                            assert(under_some_child(page, k, ch.len() as int, rest[p - 1].0 as int));
                            let j = choose|j: int| 0 <= j < ch.len() && lies_under(page, rest[p - 1].0 as int, #[trigger] ch[j] as int);
                            lemma_under_child(page, rest[p - 1].0 as int, k, j);
                        }
                    }
                    assert forall|p: int, q: int| 0 <= p < q < w.len() implies #[trigger] w[p].0 != #[trigger] w[q].0 by {
                        assert(w[q] == rest[q - 1]);
                        if p > 0 {
                            assert(w[p] == rest[p - 1]);
                        } else {
                            assert(under_some_child(page, k, ch.len() as int, rest[q - 1].0 as int));
                            let j = choose|j: int| 0 <= j < ch.len() && lies_under(page, rest[q - 1].0 as int, #[trigger] ch[j] as int);
                            lemma_under_not_below(page, rest[q - 1].0 as int, ch[j] as int);
                            assert(block_pos(page, ch[j] as int) matches Some(m) && page.blocks@[m].parent == Some(blk.id));
                            let m = block_pos(page, ch[j] as int)->Some_0;
                            assert(page.blocks@[m].parent matches Some(pp) ==> pp < page.blocks@[m].id);
                        }
                    }
                },
                None => {},
            }
        } else {
            let w = seq![(id as usize, depth as i64)];
            assert(lies_under(page, w[0].0 as int, id));
        },
    }
}

/// What lies under a child of block `k` lies under `k`.
proof fn lemma_under_child(page: crate::graph::ParsedPage, e: int, k: int, j: int)
    requires
        page_is_tree(page),
        0 <= k < page.blocks@.len(),
        0 <= j < page.blocks@[k].children@.len(),
        lies_under(page, e, page.blocks@[k].children@[j] as int),
    ensures
        lies_under(page, e, page.blocks@[k].id as int),
    decreases e,
{
    let c = page.blocks@[k].children@[j] as int;
    let kid = page.blocks@[k].id as int;
    assert(block_pos(page, c) matches Some(m) && page.blocks@[m].parent == Some(page.blocks@[k].id));
    let mc = block_pos(page, c)->Some_0;
    assert(page.blocks@[mc].parent matches Some(pp) ==> pp < page.blocks@[mc].id);
    assert(page.blocks@[mc].id == page.root_block + mc);
    if e == c {
        assert(lies_under(page, kid, kid));
    } else {
        let m = block_pos(page, e)->Some_0;
        let p = page.blocks@[m].parent->Some_0;
        assert(page.blocks@[m].id == page.root_block + m);
        lemma_under_child(page, p as int, k, j);
    }
}

proof fn lemma_walk_children_once(page: crate::graph::ParsedPage, k: int, n: int, depth: int, max_depth: int)
    requires
        page_is_tree(page),
        0 <= k < page.blocks@.len(),
        0 <= n <= page.blocks@[k].children@.len(),
    ensures
        walk_children(page, page.blocks@[k].children@, n, depth, max_depth) matches Some(w) ==> visits_once(w)
            && forall|p: int| 0 <= p < w.len() ==> #[trigger] under_some_child(page, k, n, w[p].0 as int),
    decreases max_depth - depth + 1, 0int, n,
{
    let ch = page.blocks@[k].children@;
    if !(n <= 0 || n > ch.len() || depth > max_depth) {
        lemma_walk_children_once(page, k, n - 1, depth, max_depth);
        lemma_walk_once(page, ch[n - 1] as int, depth, max_depth);
        match (walk_children(page, ch, n - 1, depth, max_depth), walk_spec(page, ch[n - 1] as int, depth, max_depth)) {
            (Some(a), Some(b)) => {
                let w = a + b;
                assert forall|p: int| 0 <= p < w.len() implies #[trigger] under_some_child(page, k, n, w[p].0 as int) by {
                    if p < a.len() {
                        assert(w[p] == a[p]);
                        assert(under_some_child(page, k, n - 1, a[p].0 as int));
                        let j = choose|j: int| 0 <= j < n - 1 && lies_under(page, a[p].0 as int, #[trigger] ch[j] as int);
                        assert(lies_under(page, w[p].0 as int, ch[j] as int));
                    } else {
                        assert(w[p] == b[p - a.len()]);
                        assert(lies_under(page, b[p - a.len()].0 as int, ch[n - 1] as int));
                    }
                }
                assert forall|p: int, q: int| 0 <= p < q < w.len() implies #[trigger] w[p].0 != #[trigger] w[q].0 by {
                    if q < a.len() {
                        assert(w[p] == a[p] && w[q] == a[q]);
                    } else if p >= a.len() {
                        assert(w[p] == b[p - a.len()] && w[q] == b[q - a.len()]);
                    } else {
                        assert(w[p] == a[p] && w[q] == b[q - a.len()]);
                        assert(under_some_child(page, k, n - 1, a[p].0 as int));
                        let j = choose|j: int| 0 <= j < n - 1 && lies_under(page, a[p].0 as int, #[trigger] ch[j] as int);
                        assert(ch[j] != ch[n - 1]);
                        let kid = page.blocks@[k].id;
                        assert(block_pos(page, ch[j] as int) matches Some(m) && page.blocks@[m].parent == Some(kid));
                        assert(block_pos(page, ch[n - 1] as int) matches Some(m) && page.blocks@[m].parent == Some(kid));
                        let m1 = block_pos(page, ch[j] as int)->Some_0;
                        let m2 = block_pos(page, ch[n - 1] as int)->Some_0;
                        assert(page.blocks@[m1].parent matches Some(pp) ==> pp < page.blocks@[m1].id);
                        assert(page.blocks@[m2].parent matches Some(pp) ==> pp < page.blocks@[m2].id);
                        assert(page.blocks@[m1].id == page.root_block + m1);
                        assert(page.blocks@[m2].id == page.root_block + m2);
                        if a[p].0 == b[q - a.len()].0 {
                            lemma_siblings_apart(page, a[p].0 as int, ch[j] as int, ch[n - 1] as int, kid);
                        }
                    }
                }
            },
            _ => {},
        }
    }
}

/// In a page whose blocks form a tree, a script's walk visits no block twice.
pub proof fn law_walk_visits_each_block_once(page: crate::graph::ParsedPage, max_depth: i64)
    requires
        page_is_tree(page),
    ensures
        walk_spec(page, page.root_block as int, 0, max_depth as int) matches Some(w) ==> visits_once(w),
{
    lemma_walk_once(page, page.root_block as int, 0, max_depth as int);
}

/// The blocks that a script's `each_block` visits, in order, with their depths, from the page's
/// own block at depth 0 (see `walk_spec`); nothing when a block is not in the page.
pub fn walk_order(page: &crate::graph::ParsedPage, max_depth: i64) -> (r: Option<Vec<(usize, i64)>>)
    ensures
        match walk_spec(*page, page.root_block as int, 0, max_depth as int) {
            Some(w) => r matches Some(v) && v@ == w,
            None => r is None,
        },
{
    let mut out: Vec<(usize, i64)> = Vec::new();
    if max_depth < 0 {
        if page.blocks.len() == 0 {
            return None;
        }
        out.push((page.root_block, 0));
        assert(out@ =~= seq![(page.root_block, 0i64)]);
        return Some(out);
    }
    if walk_from(page, page.root_block, 0, max_depth, &mut out) {
        assert(out@ =~= Seq::<(usize, i64)>::empty() + walk_spec(*page, page.root_block as int, 0, max_depth as int)->Some_0);
        Some(out)
    } else {
        None
    }
}

} // verus!
