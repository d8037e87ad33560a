//! Turning a page that was read from disk into the blocks of the graph.
use vstd::prelude::*;

use crate::attr_map::{clone_strings, texts, AttrMap};
use crate::content::BlockContent;
use crate::graph::{view_type_named, Block, BlockInclude, ListType, ParsedPage, ViewType};
use crate::logseq::blocks::LogseqRawBlock;
use crate::logseq::db::MetadataDbPageUpdate;
use crate::logseq::metadata::{resolve_metadata, resolve_spec, update_model, LegacyMetadata, LogseqRawPage};
use crate::parse_string::ContentStyle;

verus! {

/// Position, in the page's list of blocks, of the parent of content block `i`: the block it was
/// placed under, or the page's own block (position 0).
pub open spec fn parent_pos(blocks: Seq<LogseqRawBlock>, i: int) -> int {
    match blocks[i].parent_idx {
        Some(k) => k + 1,
        None => 0,
    }
}

/// The ids of the children of the block at position `j`, in order, among the first `n` content
/// blocks.
pub open spec fn children_at(blocks: Seq<LogseqRawBlock>, base: int, j: int, n: int) -> Seq<usize>
    decreases n,
{
    if n <= 0 {
        Seq::empty()
    } else {
        children_at(blocks, base, j, n - 1) + if parent_pos(blocks, n - 1) == j {
            seq![(base + n) as usize]
        } else {
            Seq::empty()
        }
    }
}

/// Every block's parent comes before it.
pub open spec fn parents_precede(blocks: Seq<LogseqRawBlock>) -> bool {
    forall|i: int|
        0 <= i < blocks.len() ==> ((#[trigger] blocks[i]).parent_idx matches Some(k) ==> k < i)
}

pub open spec fn lit_title() -> Seq<char> {
    seq!['t', 'i', 't', 'l', 'e']
}

pub open spec fn lit_original_title() -> Seq<char> {
    seq!['o', 'r', 'i', 'g', 'i', 'n', 'a', 'l', '_', 't', 'i', 't', 'l', 'e']
}

pub open spec fn lit_id() -> Seq<char> {
    seq!['i', 'd']
}

pub open spec fn lit_tags() -> Seq<char> {
    seq!['t', 'a', 'g', 's']
}

pub open spec fn lit_view_mode() -> Seq<char> {
    seq!['v', 'i', 'e', 'w', '-', 'm', 'o', 'd', 'e']
}

/// The first value of an attribute, if the page has it.
pub open spec fn first_value(attrs: Map<Seq<char>, Seq<Seq<char>>>, k: Seq<char>) -> Option<Seq<char>> {
    if attrs.contains_key(k) {
        Some(attrs[k][0])
    } else {
        None
    }
}

/// The attributes that a page needs a first value of have one.
pub open spec fn page_attrs_ok(attrs: Map<Seq<char>, Seq<Seq<char>>>) -> bool {
    &&& attrs.contains_key(lit_title()) ==> attrs[lit_title()].len() > 0
    &&& attrs.contains_key(lit_original_title()) ==> attrs[lit_original_title()].len() > 0
    &&& attrs.contains_key(lit_id()) ==> attrs[lit_id()].len() > 0
}

pub open spec fn opt_view(o: Option<String>) -> Option<Seq<char>> {
    match o {
        Some(s) => Some(s@),
        None => None,
    }
}

proof fn lemma_literals()
    ensures
        "title"@ == lit_title(),
        "original_title"@ == lit_original_title(),
        "id"@ == lit_id(),
        "tags"@ == lit_tags(),
        "view-mode"@ == lit_view_mode(),
{
    reveal_strlit("title");
    reveal_strlit("original_title");
    reveal_strlit("id");
    reveal_strlit("tags");
    reveal_strlit("view-mode");
    assert("title"@ =~= lit_title());
    assert("original_title"@ =~= lit_original_title());
    assert("id"@ =~= lit_id());
    assert("tags"@ =~= lit_tags());
    assert("view-mode"@ =~= lit_view_mode());
}

fn first_of(v: Option<Vec<String>>) -> (r: Option<String>)
    requires
        v matches Some(x) ==> x@.len() > 0,
    ensures
        opt_view(r) == match v {
            Some(x) => Some(x@[0]@),
            None => None,
        },
{
    match v {
        Some(x) => {
            let mut x = x;
            Some(x.remove(0))
        },
        None => None,
    }
}

/// The ids of the children of the block at position `j`.
fn children_of(blocks: &Vec<LogseqRawBlock>, base: usize, j: usize) -> (r: Vec<usize>)
    requires
        base + blocks@.len() + 1 <= usize::MAX,
    ensures
        r@ == children_at(blocks@, base as int, j as int, blocks@.len() as int),
{
    let mut out: Vec<usize> = Vec::new();
    let mut i: usize = 0;
    while i < blocks.len()
        invariant
            i <= blocks@.len(),
            base + blocks@.len() + 1 <= usize::MAX,
            out@ == children_at(blocks@, base as int, j as int, i as int),
        decreases blocks@.len() - i,
    {
        let p: usize = match blocks[i].parent_idx {
            Some(k) => if k < usize::MAX {
                k + 1
            } else {
                0
            },
            None => 0,
        };
        let is_child = match blocks[i].parent_idx {
            Some(k) => k < usize::MAX && k + 1 == j,
            None => j == 0,
        };
        let ghost before = out@;
        if is_child {
            out.push(base + i + 1);
            assert(out@ =~= before + seq![(base + i + 1) as usize]);
        } else {
            assert(out@ =~= before + Seq::<usize>::empty());
        }
        i = i + 1;
    }
    out
}

/// What a page's own block and its content blocks are (see `process_raw_page`).
pub open spec fn page_blocks_match(page: LogseqRawPage, is_journal: bool, r: ParsedPage, created: u64, edited: u64) -> bool {
    let attrs = page.attrs@;
    let base = page.base_id as int;
    let blocks = page.blocks@;
    let n = blocks.len() as int;
    &&& r.wf()
    &&& r.root_block == page.base_id
    &&& r.path@ == page.path@
    &&& r.blocks@.len() == n + 1
    &&& {
        let pb = r.blocks@[0];
        &&& pb.id == page.base_id
        &&& pb.containing_page == page.base_id
        &&& opt_view(pb.page_title) == first_value(attrs, lit_title())
        &&& opt_view(pb.original_title) == first_value(attrs, lit_original_title())
        &&& pb.uid@ == match first_value(attrs, lit_id()) {
            Some(u) => u,
            None => Seq::empty(),
        }
        &&& pb.parent is None
        &&& pb.children@ == children_at(blocks, base, 0, n)
        &&& pb.include_type == BlockInclude::IfChildrenPresent
        &&& texts(pb.tags@) == if attrs.contains_key(lit_tags()) {
            attrs[lit_tags()]
        } else {
            Seq::empty()
        }
        &&& pb.view_type == if attrs.contains_key(lit_view_mode()) && attrs[lit_view_mode()].len() > 0 {
            view_type_named(attrs[lit_view_mode()][0])
        } else {
            ViewType::Inherit
        }
        &&& pb.attrs@ == attrs.remove(lit_title()).remove(lit_original_title()).remove(lit_id())
        &&& pb.is_journal == is_journal
        &&& pb.contents.string@.len() == 0
        &&& pb.heading == 0
        &&& pb.create_time == created
        &&& pb.edit_time == edited
    }
    &&& forall|i: int|
        0 <= i < n ==> {
            let b = #[trigger] r.blocks@[i + 1];
            let input = blocks[i];
            &&& b.id == base + i + 1
            &&& b.containing_page == page.base_id
            &&& b.parent == Some((base + parent_pos(blocks, i)) as usize)
            &&& b.children@ == children_at(blocks, base, i + 1, n)
            &&& b.uid@ == input.id@
            &&& b.contents == input.contents
            &&& b.tags == input.tags
            &&& b.attrs == input.attrs
            &&& b.view_type == input.view_type
            &&& b.this_block_list_type == input.this_block_list_type
            &&& b.heading == input.header_level
            &&& b.include_type == BlockInclude::AndChildren
            &&& b.page_title is None
            &&& b.is_journal == is_journal
            &&& b.create_time == 0
            &&& b.edit_time == 0
        }
}

proof fn lemma_children_at_members(blocks: Seq<LogseqRawBlock>, base: int, j: int, n: int)
    requires
        0 <= base,
        0 <= n <= blocks.len(),
        base + n + 1 <= usize::MAX,
    ensures
        forall|c: usize|
            children_at(blocks, base, j, n).contains(c) <==> (base + 1 <= c <= base + n && parent_pos(
                blocks,
                c - base - 1,
            ) == j),
        forall|a: int, b: int|
            0 <= a < b < children_at(blocks, base, j, n).len() ==> children_at(blocks, base, j, n)[a]
                < children_at(blocks, base, j, n)[b],
        forall|a: int|
            0 <= a < children_at(blocks, base, j, n).len() ==> children_at(blocks, base, j, n)[a] <= base
                + n,
    decreases n,
{
    if n > 0 {
        lemma_children_at_members(blocks, base, j, n - 1);
        let prev = children_at(blocks, base, j, n - 1);
        let cur = children_at(blocks, base, j, n);
        if parent_pos(blocks, n - 1) == j {
            assert(cur == prev + seq![(base + n) as usize]);
            assert forall|c: usize| cur.contains(c) <==> (base + 1 <= c <= base + n && parent_pos(
                blocks,
                c - base - 1,
            ) == j) by {
                if cur.contains(c) {
                    let k = choose|k: int| 0 <= k < cur.len() && cur[k] == c;
                    if k < prev.len() {
                        assert(prev.contains(c));
                    }
                }
                if base + 1 <= c <= base + n && parent_pos(blocks, c - base - 1) == j {
                    if c == base + n {
                        assert(cur[prev.len() as int] == c);
                    } else {
                        assert(prev.contains(c));
                        let k = choose|k: int| 0 <= k < prev.len() && prev[k] == c;
                        assert(cur[k] == c);
                    }
                }
            }
        } else {
            assert(cur =~= prev);
        }
    }
}

/// The blocks of a page have the ids from the page's base id on, one after another. A block
/// lists another among its children exactly when that one names it as its parent, and lists
/// them in the order of their ids; every content block has a parent, which comes before it.
pub proof fn law_page_blocks_form_a_tree(
    page: LogseqRawPage,
    is_journal: bool,
    r: ParsedPage,
    created: u64,
    edited: u64,
)
    requires
        page_blocks_match(page, is_journal, r, created, edited),
        parents_precede(page.blocks@),
        page.base_id + page.blocks@.len() + 1 <= usize::MAX,
    ensures
        forall|i: int| 0 <= i < r.blocks@.len() ==> #[trigger] r.blocks@[i].id == page.base_id + i,
        forall|i: int, j: int|
            0 <= i < r.blocks@.len() && 0 <= j < r.blocks@.len() ==> (
            #[trigger] r.blocks@[j].children@.contains(#[trigger] r.blocks@[i].id) <==> r.blocks@[i].parent
                == Some(r.blocks@[j].id)),
        forall|j: int, a: int, b: int|
            0 <= j < r.blocks@.len() && 0 <= a < b < r.blocks@[j].children@.len() ==> #[trigger] r.blocks@[j].children@[a]
                < #[trigger] r.blocks@[j].children@[b],
        forall|i: int|
            0 < i < r.blocks@.len() ==> (#[trigger] r.blocks@[i].parent matches Some(p) && p < r.blocks@[i].id),
{
    let blocks = page.blocks@;
    let base = page.base_id as int;
    let n = blocks.len() as int;
    assert forall|i: int| 0 <= i < r.blocks@.len() implies #[trigger] r.blocks@[i].id == page.base_id + i by {
        if i > 0 {
            assert(r.blocks@[(i - 1) + 1].id == base + (i - 1) + 1);
        }
    }
    assert forall|j: int| 0 <= j < r.blocks@.len() implies #[trigger] r.blocks@[j].children@ == children_at(blocks, base, j, n) by {
        if j > 0 {
            assert(r.blocks@[(j - 1) + 1].children@ == children_at(blocks, base, (j - 1) + 1, n));
        }
    }
    assert forall|j: int, a: int, b: int|
        0 <= j < r.blocks@.len() && 0 <= a < b < r.blocks@[j].children@.len() implies #[trigger] r.blocks@[j].children@[a]
            < #[trigger] r.blocks@[j].children@[b] by {
        lemma_children_at_members(blocks, base, j, n);
    }
    assert forall|i: int| 0 < i < r.blocks@.len() implies (#[trigger] r.blocks@[i].parent matches Some(p) && p < r.blocks@[i].id) by {
        let b = r.blocks@[(i - 1) + 1];
        assert(b.parent == Some((base + parent_pos(blocks, i - 1)) as usize));
        assert(blocks[i - 1].parent_idx matches Some(k) ==> k < i - 1);
    }
    assert forall|i: int, j: int|
        0 <= i < r.blocks@.len() && 0 <= j < r.blocks@.len() implies (
        #[trigger] r.blocks@[j].children@.contains(#[trigger] r.blocks@[i].id) <==> r.blocks@[i].parent
            == Some(r.blocks@[j].id)) by {
        lemma_children_at_members(blocks, base, j, n);
        assert(r.blocks@[j].children@ == children_at(blocks, base, j, n));
        assert(r.blocks@[i].id == base + i);
        assert(r.blocks@[j].id == base + j);
        if i > 0 {
            let b = r.blocks@[(i - 1) + 1];
            assert(b.parent == Some((base + parent_pos(blocks, i - 1)) as usize));
            assert(blocks[i - 1].parent_idx matches Some(k) ==> k < i - 1);
        }
    }
}

/// Make the graph's blocks for a page: first the page's own block, which takes the page's
/// title, id, tags, view mode and remaining attributes and its times (see `resolve_metadata`),
/// then one block per content block, in order, each under its parent or under the page.
pub fn process_raw_page(
    legacy: &LegacyMetadata,
    root: &str,
    page: LogseqRawPage,
    is_journal: bool,
) -> (r: (Option<MetadataDbPageUpdate>, ParsedPage))
    requires
        page_attrs_ok(page.attrs@),
        parents_precede(page.blocks@),
        page.base_id + page.blocks@.len() + 1 <= usize::MAX,
    ensures
        ({
            let (u, c, e) = resolve_spec(
                legacy@,
                root@,
                page.path@,
                page.hash@,
                page.created_time,
                page.updated_time,
                match page.metadata_entry {
                    Some((mt, m)) => Some((mt, m.model())),
                    None => None,
                },
                first_value(page.attrs@, lit_title()),
                is_journal,
            );
            update_model(r.0) == u && page_blocks_match(page, is_journal, r.1, c, e)
        }),
{
    proof {
        lemma_literals();
    }
    let ghost old_page = page;
    let mut page = page;
    assert(lit_title().len() != lit_original_title().len());
    assert(lit_id().len() != lit_original_title().len());
    assert(lit_id().len() != lit_title().len());
    let title = first_of(page.attrs.remove("title"));
    let ghost a1 = page.attrs@;
    assert(a1 == old_page.attrs@.remove(lit_title()));
    let original_title = first_of(page.attrs.remove("original_title"));
    let ghost a2 = page.attrs@;
    assert(a2 == a1.remove(lit_original_title()));
    assert(a1.contains_key(lit_original_title()) == old_page.attrs@.contains_key(lit_original_title()));
    assert(a1.contains_key(lit_original_title()) ==> a1[lit_original_title()] == old_page.attrs@[lit_original_title()]);
    assert(opt_view(original_title) == first_value(old_page.attrs@, lit_original_title()));
    let uid = match first_of(page.attrs.remove("id")) {
        Some(u) => u,
        None => String::new(),
    };
    let tags = match page.attrs.get("tags") {
        Some(t) => clone_strings(t),
        None => Vec::new(),
    };
    let view_type = match page.attrs.get("view-mode") {
        Some(values) => if values.len() > 0 {
            ViewType::from_name(values[0].as_str())
        } else {
            ViewType::Inherit
        },
        None => ViewType::Inherit,
    };
    let ghost a3 = page.attrs@;
    assert(a3 == old_page.attrs@.remove(lit_title()).remove(lit_original_title()).remove(lit_id()));
    let (db_meta, create_time, edit_time) = resolve_metadata(
        legacy,
        root,
        &mut page,
        &title,
        is_journal,
    );
    let base = page.base_id;
    let n = page.blocks.len();
    let root_children = children_of(&page.blocks, base, 0);
    let mut kids: Vec<Vec<usize>> = Vec::new();
    let mut j: usize = 0;
    while j < n
        invariant
            j <= n == page.blocks@.len(),
            page.blocks@ == old_page.blocks@,
            base == old_page.base_id,
            base + n + 1 <= usize::MAX,
            kids@.len() == j,
            forall|k: int| 0 <= k < j ==> (#[trigger] kids@[k])@ == children_at(page.blocks@, base as int, k + 1, n as int),
        decreases n - j,
    {
        kids.push(children_of(&page.blocks, base, j + 1));
        j = j + 1;
    }
    let LogseqRawPage { attrs, blocks: inputs, path, .. } = page;
    let mut out: Vec<Block> = Vec::new();
    out.push(
        Block {
            id: base,
            containing_page: base,
            page_title: title,
            original_title,
            uid,
            parent: None,
            children: root_children,
            order: 0,
            include_type: BlockInclude::IfChildrenPresent,
            tags,
            attrs,
            is_journal,
            contents: BlockContent::new_empty(ContentStyle::Logseq),
            heading: 0,
            view_type,
            this_block_list_type: ListType::Default,
            edit_time,
            create_time,
            extra_classes: Vec::new(),
            content_element: None,
            wrapper_element: None,
        },
    );
    let ghost pb0 = out@[0];
    let mut inputs = inputs;
    let mut kids = kids;
    let mut i: usize = 0;
    while i < n
        invariant
            i <= n == old_page.blocks@.len(),
            inputs@ == old_page.blocks@.subrange(i as int, n as int),
            kids@.len() == n - i,
            forall|k: int| 0 <= k < n - i ==> (#[trigger] kids@[k])@ == children_at(old_page.blocks@, base as int, k + i + 1, n as int),
            base == old_page.base_id,
            base + n + 1 <= usize::MAX,
            parents_precede(old_page.blocks@),
            out@.len() == i + 1,
            out@[0].id == base,
            forall|k: int| 0 <= k < out@.len() ==> (#[trigger] out@[k]).id == base + k,
            forall|k: int|
                0 <= k < i ==> {
                    let b = #[trigger] out@[k + 1];
                    let input = old_page.blocks@[k];
                    &&& b.id == base + k + 1
                    &&& b.containing_page == base
                    &&& b.parent == Some((base + parent_pos(old_page.blocks@, k)) as usize)
                    &&& b.children@ == children_at(old_page.blocks@, base as int, k + 1, n as int)
                    &&& b.uid@ == input.id@
                    &&& b.contents == input.contents
                    &&& b.tags == input.tags
                    &&& b.attrs == input.attrs
                    &&& b.view_type == input.view_type
                    &&& b.this_block_list_type == input.this_block_list_type
                    &&& b.heading == input.header_level
                    &&& b.include_type == BlockInclude::AndChildren
                    &&& b.page_title is None
                    &&& b.is_journal == is_journal
                    &&& b.create_time == 0
                    &&& b.edit_time == 0
                },
            out@[0] == pb0,
        decreases n - i,
    {
        let ghost kids0 = kids@;
        let input = inputs.remove(0);
        let children = kids.remove(0);
        assert(input == old_page.blocks@[i as int]);
        let parent_pos: usize = match input.parent_idx {
            Some(k) => k + 1,
            None => 0,
        };
        let LogseqRawBlock { id: input_id, header_level, contents, view_type: vt, this_block_list_type, tags: input_tags, attrs: input_attrs, .. } = input;
        let ghost before = out@;
        out.push(
            Block {
                id: base + i + 1,
                containing_page: base,
                page_title: None,
                original_title: None,
                uid: input_id,
                parent: Some(base + parent_pos),
                children,
                order: 0,
                include_type: BlockInclude::AndChildren,
                tags: input_tags,
                attrs: input_attrs,
                is_journal,
                contents,
                heading: header_level as usize,
                view_type: vt,
                this_block_list_type,
                edit_time: 0,
                create_time: 0,
                extra_classes: Vec::new(),
                content_element: None,
                wrapper_element: None,
            },
        );
        assert forall|k: int| 0 <= k < kids@.len() implies (#[trigger] kids@[k])@ == children_at(
            old_page.blocks@,
            base as int,
            k + (i + 1) + 1,
            n as int,
        ) by {
            assert(kids@[k] == kids0[k + 1]);
        }
        assert(inputs@ =~= old_page.blocks@.subrange(i + 1, n as int));
        i = i + 1;
    }
    let parsed = ParsedPage { root_block: base, blocks: out, path };
    let ghost pb = parsed.blocks@[0];
    let ghost attrs0 = old_page.attrs@;
    assert(parsed.wf());
    assert(opt_view(pb.page_title) == first_value(attrs0, lit_title()));
    assert(opt_view(pb.original_title) == first_value(attrs0, lit_original_title()));
    assert(pb.attrs@ == attrs0.remove(lit_title()).remove(lit_original_title()).remove(lit_id()));
    assert(pb.children@ == children_at(old_page.blocks@, base as int, 0, n as int));
    assert(texts(pb.tags@) == if attrs0.contains_key(lit_tags()) {
            attrs0[lit_tags()]
        } else {
            Seq::empty()
        });
    assert(pb.view_type == if attrs0.contains_key(lit_view_mode()) && attrs0[lit_view_mode()].len() > 0 {
            view_type_named(attrs0[lit_view_mode()][0])
        } else {
            ViewType::Inherit
        });
    (db_meta, parsed)
}

/// The ids a page takes: one for its own block and one for each of its blocks.
pub open spec fn page_span(p: LogseqRawPage) -> nat {
    p.blocks@.len() + 1
}

/// The ids that the pages `s` take together.
pub open spec fn spans_total(s: Seq<LogseqRawPage>) -> nat
    decreases s.len(),
{
    if s.len() == 0 {
        0
    } else {
        spans_total(s.drop_last()) + page_span(s.last())
    }
}

/// The first id of page `i` when the pages' ids follow one another from `next_id`.
pub open spec fn base_of(s: Seq<LogseqRawPage>, next_id: int, i: int) -> int {
    next_id + spans_total(s.take(i))
}

proof fn lemma_spans_take_step(s: Seq<LogseqRawPage>, i: int)
    requires
        0 <= i < s.len(),
    ensures
        spans_total(s.take(i + 1)) == spans_total(s.take(i)) + page_span(s[i]),
{
    assert(s.take(i + 1).drop_last() =~= s.take(i));
}

proof fn lemma_spans_take_mono(s: Seq<LogseqRawPage>, i: int, j: int)
    requires
        0 <= i <= j <= s.len(),
    ensures
        spans_total(s.take(i)) <= spans_total(s.take(j)),
    decreases j - i,
{
    if i < j {
        lemma_spans_take_step(s, j - 1);
        lemma_spans_take_mono(s, i, j - 1);
    }
}

/// The ids of pages placed one after another never overlap: a page's ids all come before the
/// first id of any later page.
pub proof fn law_base_ids_apart(s: Seq<LogseqRawPage>, next_id: int, i: int, j: int)
    requires
        0 <= i < j < s.len(),
    ensures
        base_of(s, next_id, i) + page_span(s[i]) <= base_of(s, next_id, j),
{
    lemma_spans_take_step(s, i);
    lemma_spans_take_mono(s, i + 1, j);
}

/// Give the pages their first ids, one after another from `next_id` (see `base_of`), and the id
/// that comes after them; nothing, with the pages as they were, when the ids would not fit in a
/// `usize`.
pub fn assign_base_ids(pages: &mut Vec<LogseqRawPage>, next_id: usize) -> (r: Option<usize>)
    ensures
        match r {
            Some(n) => {
                &&& n == next_id + spans_total(old(pages)@)
                &&& final(pages)@.len() == old(pages)@.len()
                &&& forall|i: int|
                    0 <= i < old(pages)@.len() ==> #[trigger] final(pages)@[i] == (LogseqRawPage {
                        base_id: base_of(old(pages)@, next_id as int, i) as usize,
                        ..old(pages)@[i]
                    })
            },
            None => next_id + spans_total(old(pages)@) > usize::MAX && final(pages)@ == old(pages)@,
        },
{
    let ghost s = pages@;
    let n = pages.len();
    let mut total: usize = next_id;
    let mut i: usize = 0;
    assert(s.take(0) =~= Seq::<LogseqRawPage>::empty());
    while i < n
        invariant
            n == s.len(),
            s == pages@,
            i <= n,
            total == next_id + spans_total(s.take(i as int)),
        decreases n - i,
    {
        proof {
            lemma_spans_take_step(s, i as int);
        }
        let step = match pages[i].blocks.len().checked_add(1) {
            Some(k) => k,
            None => {
                proof {
                    lemma_spans_take_mono(s, i as int + 1, n as int);
                    assert(s.take(n as int) =~= s);
                }
                return None;
            },
        };
        total = match total.checked_add(step) {
            Some(t) => t,
            None => {
                proof {
                    lemma_spans_take_mono(s, i as int + 1, n as int);
                    assert(s.take(n as int) =~= s);
                }
                return None;
            },
        };
        i = i + 1;
    }
    assert(s.take(n as int) =~= s);
    let mut taken: Vec<LogseqRawPage> = Vec::new();
    std::mem::swap(&mut taken, pages);
    let mut rest = crate::roam_graph::reversed(taken);
    let mut cur: usize = next_id;
    let mut k: usize = 0;
    assert(s.take(0) =~= Seq::<LogseqRawPage>::empty());
    while k < n
        invariant
            n == s.len(),
            total == next_id + spans_total(s),
            k <= n,
            rest@.len() == n - k,
            forall|j: int| 0 <= j < rest@.len() ==> rest@[j] == s[n - 1 - j],
            cur == next_id + spans_total(s.take(k as int)),
            pages@.len() == k,
            forall|j: int|
                0 <= j < k ==> #[trigger] pages@[j] == (LogseqRawPage {
                    base_id: base_of(s, next_id as int, j) as usize,
                    ..s[j]
                }),
        decreases n - k,
    {
        let mut p = rest.pop().unwrap();
        assert(p == s[k as int]);
        proof {
            lemma_spans_take_step(s, k as int);
            lemma_spans_take_mono(s, k as int + 1, n as int);
            assert(s.take(n as int) =~= s);
        }
        p.base_id = cur;
        cur = cur + p.blocks.len() + 1;
        pages.push(p);
        k = k + 1;
    }
    Some(total)
}

} // verus!
