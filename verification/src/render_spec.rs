//! What rendering a page gives, stated over the models of its blocks and expressions.
use vstd::prelude::*;

use crate::attr_map::texts;
use crate::config::Config;
use crate::graph::{resolve_spec, Block, BlockInclude, ListType, ViewType};
use crate::chars::find_from;
use crate::html::{escaped, lemma_escape_identity, needs_escape};
use crate::logseq::file::join_str;
use crate::parse_string::{esize, esizes, lemma_esize_within, parse_spec, Expr};
use crate::render::{
    block_by_id, block_by_uid, closing_tag, indent_text, keys_of, last_index, lookup_page_spec,
    opening_tag, page_by_id_spec, text_spec, url_encoded, katex_html, Externals, Graph, PageTables,
    RenderError,
};
use crate::string_builder::{all_ws, concat_texts, group, has_prefix, nothing, piece, Rendered};

verus! {

/// Everything a page's rendering depends on.
pub struct Ctx {
    pub config: Config,
    pub tables: PageTables,
    pub externals: Externals,
    pub class_prefix: Option<Seq<char>>,
    pub graph: Graph,
    pub heading_delta: isize,
}

pub open spec fn blank(r: Rendered) -> bool {
    all_ws(r.text)
}

/// A link to a page if it is exported, else its label as text (or nothing, when unexported links
/// are to be left out).
pub open spec fn link_spec(x: Ctx, title: Seq<char>, label: Option<Seq<char>>, omit: bool) -> Rendered {
    match lookup_page_spec(x.tables, title) {
        Some(pg) => if pg.included {
            piece(
                "<a href=\""@ + escaped(pg.slug@) + "\">"@ + text_spec(
                    x.config,
                    match label {
                        Some(l) => l,
                        None => pg.output_title@,
                    },
                ) + "</a>"@,
            )
        } else if omit {
            nothing()
        } else {
            piece(
                text_spec(
                    x.config,
                    match label {
                        Some(l) => l,
                        None => title,
                    },
                ),
            )
        },
        None => if omit {
            nothing()
        } else {
            piece(
                text_spec(
                    x.config,
                    match label {
                        Some(l) => l,
                        None => title,
                    },
                ),
            )
        },
    }
}

/// A hashtag: a link to its page, in a span with the tag as class when written `#.tag`.
pub open spec fn hashtag_spec(x: Ctx, s: Seq<char>, dot: bool, omit: bool) -> Rendered {
    let a = link_spec(x, s, None, omit);
    if dot && a.text.len() != 0 {
        group(seq![piece("<span class=\""@ + s + "\">"@), a, piece("</span>"@)])
    } else {
        a
    }
}

/// The position of the picture made for an image, by URL and alt text.
pub open spec fn picture_index(v: Seq<(String, String, Option<String>)>, url: Seq<char>, alt: Seq<char>) -> Option<int>
    decreases v.len(),
{
    if v.len() == 0 {
        None
    } else if v.last().0@ == url && v.last().1@ == alt {
        Some(v.len() - 1)
    } else {
        picture_index(v.drop_last(), url, alt)
    }
}

/// An image: its `<picture>` element when one was made for it, else a plain `<img>`.
pub open spec fn image_spec(x: Ctx, url: Seq<char>, alt: Seq<char>) -> Result<Rendered, RenderError> {
    match picture_index(x.externals.pictures@, url, alt) {
        Some(i) => match x.externals.pictures@[i].2 {
            Some(h) => Ok(piece(h@)),
            None => Err(RenderError::Picture(x.externals.pictures@[i].0)),
        },
        None => Ok(
            piece("<img alt=\""@ + escaped(alt) + "\" src=\""@ + escaped(url) + "\" />"@),
        ),
    }
}

pub open spec fn video_spec(url: Seq<char>) -> Rendered {
    piece(
        "<video controls src=\""@ + url_encoded(url) + "\" width=\"800\" height=\"450\"></video>"@,
    )
}

pub open spec fn todo_spec(done: bool) -> Rendered {
    piece(
        "<input type=\"checkbox\" disabled "@ + (if done {
            "checked"@
        } else {
            ""@
        }) + " />"@,
    )
}

/// A code block, highlighted (see `highlight_spec`).
pub open spec fn code_spec(x: Ctx, code: Seq<char>) -> Result<Rendered, RenderError> {
    match crate::highlight::highlight_spec(x.class_prefix, code) {
        Some(h) => Ok(piece("<pre><code>"@ + h + "</code></pre>"@)),
        None => Err(RenderError::Highlight),
    }
}

pub open spec fn hrule_spec(c: Config) -> Rendered {
    if c.class_hr@.len() == 0 {
        piece("<hr />"@)
    } else {
        piece("<hr class=\""@ + c.class_hr@ + "\" />"@)
    }
}

/// The output of an expression: what it renders to, whether it must be rendered, whether the
/// block's children are rendered, and the latest edit time seen.
pub type ExprOut = Result<(Rendered, bool, bool, u64), RenderError>;

/// The output of a line: what it renders to, whether the block's children are rendered, and the
/// latest edit time seen.
pub type LineOut = Result<(Rendered, bool, u64), RenderError>;

/// The output of a block: what it renders to and the latest edit time seen.
pub type BlockOut = Result<(Rendered, u64), RenderError>;

pub open spec fn style_wrap(tag: Seq<char>, class: Seq<char>, r: LineOut) -> ExprOut {
    match r {
        Ok((s, rc, l)) => Ok((group(seq![piece(opening_tag(tag, class)), s, piece(closing_tag(tag))]), true, rc, l)),
        Err(e) => Err(e),
    }
}

pub open spec fn contains_text(v: Seq<String>, s: Seq<char>) -> bool {
    exists|i: int| 0 <= i < v.len() && (#[trigger] v[i])@ == s
}

/// An attribute: its name and its value's expressions, unless the attribute is omitted.
pub open spec fn attribute_wrap(x: Ctx, name: Seq<char>, first: bool, r: LineOut) -> ExprOut {
    match r {
        Ok((s, rc, l)) => Ok(
            (
                group(
                    seq![
                        piece(if first { "<span>"@ } else { "<br /><span>"@ }),
                        piece(opening_tag("span"@, x.config.class_attr_name@)),
                        piece(escaped(name)),
                        piece(":</span> "@),
                        piece(opening_tag("span"@, x.config.class_attr_value@)),
                        s,
                        piece("</span></span>"@),
                    ],
                ),
                true,
                rc,
                l,
            ),
        ),
        Err(e) => Err(e),
    }
}

/// Whether an expression may stand in a line that holds only links.
pub open spec fn link_only_expr(e: Expr) -> bool {
    match e {
        Expr::Link(_) => true,
        Expr::Hashtag(_, _) => true,
        Expr::Todo { .. } => true,
        Expr::Text(t) => all_ws(t),
        _ => false,
    }
}

/// Whether a line holds nothing but links, hashtags, to-do markers and blank text.
pub open spec fn link_only(m: Seq<Expr>) -> bool {
    forall|i: int| 0 <= i < m.len() ==> #[trigger] link_only_expr(m[i])
}

/// The heading level of a block in the output: its Markdown level moved by the page's delta,
/// at least 1; 0 for a block that is no heading.
pub open spec fn heading_level(heading: usize, delta: isize) -> int {
    if heading > 0 {
        let h = heading + delta;
        if h < 1 {
            1
        } else {
            h
        }
    } else {
        0
    }
}

pub open spec fn heading_tag(level: int) -> Seq<char> {
    if level == 1 {
        "h1"@
    } else if level == 2 {
        "h2"@
    } else if level == 3 {
        "h3"@
    } else if level == 4 {
        "h4"@
    } else {
        ""@
    }
}

pub open spec fn heading_class(c: Config, level: int) -> Seq<char> {
    if level == 1 {
        c.class_heading1@
    } else if level == 2 {
        c.class_heading2@
    } else if level == 3 {
        c.class_heading3@
    } else if level == 4 {
        c.class_heading4@
    } else {
        ""@
    }
}

/// A block's line wrapped in its heading element, when it is a heading and not blank.
pub open spec fn heading_wrap(x: Ctx, blk: Block, r: LineOut) -> LineOut {
    match r {
        Ok((s, rc, l)) => {
            let level = heading_level(blk.heading, x.heading_delta);
            let tag = heading_tag(level);
            if blank(s) || tag.len() == 0 {
                Ok((s, rc, l))
            } else {
                Ok((group(seq![piece(opening_tag(tag, heading_class(x.config, level))), s, piece(closing_tag(tag))]), rc, l))
            }
        },
        Err(e) => Err(e),
    }
}

/// The list element that holds a block's children, if any.
pub open spec fn child_container(container: bool, numbered: bool, view: ViewType) -> Option<(Seq<char>, Seq<char>)> {
    if !container {
        None
    } else if numbered || view == ViewType::Numbered {
        Some(("<ol class=\"list-numbered\">\n"@, "</ol>"@))
    } else if view == ViewType::Bullet {
        Some(("<ul class=\"list-bullet\">\n"@, "</ul>"@))
    } else {
        None
    }
}

/// Whether any of the children is a numbered list item.
pub open spec fn has_numbered_child(g: Graph, children: Seq<usize>) -> bool {
    exists|i: int|
        0 <= i < children.len() && match block_by_id(g.blocks@, #[trigger] children[i]) {
            Some(j) => g.blocks@[j].this_block_list_type == ListType::Number,
            None => false,
        }
}

/// The children that are in the graph, as positions among its blocks, in order.
pub open spec fn present_children(g: Graph, children: Seq<usize>) -> Seq<int>
    decreases children.len(),
{
    if children.len() == 0 {
        Seq::empty()
    } else {
        present_children(g, children.drop_last()) + match block_by_id(g.blocks@, children.last()) {
            Some(j) => seq![j],
            None => Seq::empty(),
        }
    }
}

/// `s` with `x` put after the last of its blocks ordered no later than `x`.
pub open spec fn insert_by_order(g: Graph, s: Seq<int>, x: int) -> Seq<int>
    decreases s.len(),
{
    if s.len() == 0 {
        seq![x]
    } else if g.blocks@[s.last()].order <= g.blocks@[x].order {
        s.push(x)
    } else {
        insert_by_order(g, s.drop_last(), x).push(s.last())
    }
}

/// Blocks ordered by their `order` field, keeping the order of those ordered alike.
pub open spec fn sort_by_order(g: Graph, s: Seq<int>) -> Seq<int>
    decreases s.len(),
{
    if s.len() == 0 {
        Seq::empty()
    } else {
        insert_by_order(g, sort_by_order(g, s.drop_last()), s.last())
    }
}

/// The children of a block in the order they are rendered.
pub open spec fn ordered_children(g: Graph, children: Seq<usize>) -> Seq<int> {
    let present = present_children(g, children);
    if g.block_explicit_ordering {
        sort_by_order(g, present)
    } else {
        present
    }
}

/// Where a block's extra classes go: to its wrapper element, or to its list item.
pub open spec fn class_places(extra: Seq<char>, has_wrapper: bool, li: bool) -> (Seq<char>, Seq<char>) {
    if extra.len() == 0 {
        (Seq::empty(), Seq::empty())
    } else if has_wrapper || !li {
        (extra, Seq::empty())
    } else {
        (Seq::empty(), extra)
    }
}

pub open spec fn opt_text(o: Option<String>) -> Option<Seq<char>> {
    match o {
        Some(s) => Some(s@),
        None => None,
    }
}

/// The opening `<li>` of a block.
pub open spec fn li_open(uid: Seq<char>, classes: Seq<char>) -> Seq<char> {
    if uid.len() == 0 {
        opening_tag("li"@, classes)
    } else if classes.len() == 0 {
        "<li id=\""@ + uid + "\">"@
    } else {
        "<li id=\""@ + uid + "\" class=\""@ + classes + "\">"@
    }
}

/// The opening tag of the element that holds a document-view block's content.
pub open spec fn content_open(uid: Seq<char>, element: Option<Seq<char>>) -> Seq<char> {
    if uid.len() == 0 {
        match element {
            Some(e) => "<"@ + e + ">"@,
            None => "<p>"@,
        }
    } else {
        "<"@ + (match element {
            Some(e) => e,
            None => "p"@,
        }) + " id=\""@ + uid + "\">"@
    }
}

pub open spec fn content_close(element: Option<Seq<char>>) -> Seq<char> {
    match element {
        Some(e) => "</"@ + e + ">"@,
        None => "</p>"@,
    }
}

pub open spec fn max_u64(a: u64, b: u64) -> u64 {
    if a >= b {
        a
    } else {
        b
    }
}

/// The cells of a table row, each in its `<td>`.
pub open spec fn cell_parts(cells: Seq<Rendered>) -> Seq<Rendered>
    decreases cells.len(),
{
    if cells.len() == 0 {
        Seq::empty()
    } else {
        cell_parts(cells.drop_last()) + seq![piece("    <td>"@), cells.last(), piece("</td>\n"@)]
    }
}

/// A table row.
pub open spec fn row_html(cells: Seq<Rendered>) -> Rendered {
    group(seq![piece("  <tr>\n"@)] + cell_parts(cells) + seq![piece("  </tr>\n"@)])
}

pub open spec fn rows_html(rows: Seq<Seq<Rendered>>) -> Seq<Rendered> {
    rows.map_values(|r: Seq<Rendered>| row_html(r))
}

/// A table: a row for each path from the block's children down to a block without children.
pub open spec fn table_html(rows: Seq<Seq<Rendered>>) -> Rendered {
    group(
        seq![
            piece("\n<div class=\"roam-table\"><table><tbody>\n"@),
            group(rows_html(rows)),
            piece("</tbody></table></div>\n"@),
        ],
    )
}

pub open spec fn lit_table() -> Seq<char> {
    "table"@
}

pub open spec fn starts_with_text(t: Seq<char>, p: Seq<char>) -> bool {
    has_prefix(t, p)
}

/// The budget a page is rendered with: eight units for each block of the graph, and eight more
/// (at most `u64::MAX`). A unit is spent each time rendering goes on from a block to a child, a
/// referenced block, an embedded block or page, or a table cell; styles and attributes recurse
/// on the expressions inside them and spend none. A rendering that does not come back to where
/// it already is takes at most a few units per block, so only a cycle of children, references
/// or embeds uses up this budget.
pub open spec fn render_budget(blocks: nat) -> u64 {
    if blocks < 0x1000_0000_0000_0000 {
        (8 * blocks + 8) as u64
    } else {
        u64::MAX
    }
}

/// What an expression of `blk` renders to (see the module documentation of `render`). Styles
/// recurse on the expressions inside them; `budget` is spent only where rendering goes on to
/// another block (references, embeds, tables).
pub open spec fn expr_spec(x: Ctx, blk: Block, e: Expr, first: bool, omit: bool, budget: u64, latest: u64) -> ExprOut
    decreases budget, esize(e), 0int,
{
    match e {
        Expr::Hashtag(s, dot) => Ok((hashtag_spec(x, s, dot, omit), true, true, latest)),
        Expr::RawHtml(s) => Ok((piece(s), true, true, latest)),
        Expr::Image { alt, url } => match image_spec(x, url, alt) {
            Ok(r) => Ok((r, true, true, latest)),
            Err(er) => Err(er),
        },
        Expr::Video { url } => Ok((video_spec(url), true, true, latest)),
        Expr::Todo { done } => Ok((todo_spec(done), false, true, latest)),
        Expr::Link(s) => Ok((link_spec(x, s, None, omit), true, true, latest)),
        Expr::MarkdownInternalLink { label, page } => Ok(
            (link_spec(x, page, Some(label), false), true, true, latest),
        ),
        Expr::MarkdownExternalLink { title, url } => Ok(
            (
                piece("<a href=\""@ + escaped(url) + "\">"@ + text_spec(x.config, title) + "</a>"@),
                true,
                true,
                latest,
            ),
        ),
        Expr::RawHyperlink(h) => Ok(
            (piece("<a href=\""@ + escaped(h) + "\">"@ + escaped(h) + "</a>"@), true, true, latest),
        ),
        Expr::SingleBacktick(s) => Ok(
            (piece("<code>"@ + escaped(s) + "</code>"@), true, true, latest),
        ),
        Expr::TripleBacktick(s) => match code_spec(x, s) {
            Ok(r) => Ok((r, true, true, latest)),
            Err(er) => Err(er),
        },
        Expr::Bold(v) => style_wrap("strong"@, x.config.class_bold@, exprs_spec(x, blk, v, false, false, budget, latest)),
        Expr::Italic(v) => style_wrap("em"@, x.config.class_italic@, exprs_spec(x, blk, v, false, false, budget, latest)),
        Expr::Strike(v) => style_wrap("del"@, x.config.class_strikethrough@, exprs_spec(x, blk, v, false, false, budget, latest)),
        Expr::Highlight(v) => style_wrap("span"@, x.config.class_highlight@, exprs_spec(x, blk, v, false, false, budget, latest)),
        Expr::Latex(s) => match katex_html(s) {
            Some(h) => Ok((piece(h), true, true, latest)),
            None => Err(RenderError::Latex),
        },
        Expr::BlockQuote(v) => style_wrap("blockquote"@, x.config.class_blockquote@, exprs_spec(x, blk, v, false, false, budget, latest)),
        Expr::Text(s) => Ok((piece(text_spec(x.config, s)), true, true, latest)),
        Expr::BlockRef(s) => block_ref_spec(x, blk, s, first, budget, latest),
        Expr::BraceDirective(s) => if s == lit_table() {
            match table_spec(x, blk, budget, latest) {
                Ok((r, l)) => Ok((r, true, false, l)),
                Err(er) => Err(er),
            }
        } else if starts_with_text(s, "query:"@) || starts_with_text(s, "renderer "@) {
            Ok((nothing(), true, true, latest))
        } else {
            Ok((piece("<pre>"@ + escaped(s) + "</pre>"@), true, true, latest))
        },
        Expr::Table => match table_spec(x, blk, budget, latest) {
            Ok((r, l)) => Ok((r, true, false, l)),
            Err(er) => Err(er),
        },
        Expr::HRule => Ok((hrule_spec(x.config), true, true, latest)),
        Expr::BlockEmbed(s) => match block_embed_spec(x, s, budget, latest) {
            Ok((r, l)) => Ok((r, true, true, l)),
            Err(er) => Err(er),
        },
        Expr::PageEmbed(s) => match page_embed_spec(x, s, budget, latest) {
            Ok((r, l)) => Ok((r, true, true, l)),
            Err(er) => Err(er),
        },
        Expr::Attribute { name, value } => if contains_text(x.tables.omitted_attributes@, name) {
            Ok((nothing(), false, true, latest))
        } else {
            attribute_wrap(x, name, first, exprs_spec(x, blk, value, false, false, budget, latest))
        },
    }
}

/// What a list of expressions renders to: their outputs together if any must be rendered and
/// is not blank, else nothing; the children are rendered unless an expression says otherwise.
pub open spec fn exprs_spec(x: Ctx, blk: Block, es: Seq<Expr>, first: bool, omit: bool, budget: u64, latest: u64) -> LineOut
    decreases budget, esizes(es), es.len() + 2,
{
    exprs_loop(x, blk, es, 0, first, omit, budget, latest, Seq::empty(), false, true)
}

pub open spec fn exprs_loop(
    x: Ctx,
    blk: Block,
    es: Seq<Expr>,
    i: int,
    first: bool,
    omit: bool,
    budget: u64,
    latest: u64,
    acc: Seq<Rendered>,
    should: bool,
    rc: bool,
) -> LineOut
    decreases budget, esizes(es), es.len() - i + 1,
{
    if i < 0 || i >= es.len() {
        Ok((
            if should {
                group(acc)
            } else {
                nothing()
            },
            rc,
            latest,
        ))
    } else {
        proof {
            lemma_esize_within(es, i);
        }
        match expr_spec(x, blk, es[i], first && i == 0, omit, budget, latest) {
            Err(er) => Err(er),
            Ok((r, must, rc2, l)) => exprs_loop(
                x,
                blk,
                es,
                i + 1,
                first,
                omit,
                budget,
                l,
                acc.push(r),
                should || (!blank(r) && must),
                rc && rc2,
            ),
        }
    }
}

/// A block's line without its heading element.
pub open spec fn line_wo_header_spec(x: Ctx, blk: Block, budget: u64, latest: u64) -> LineOut
    decreases budget, esizes(blk.contents.model()), blk.contents.model().len() + 3,
{
    let m = blk.contents.model();
    exprs_spec(x, blk, m, true, x.config.filter_link_only_blocks && link_only(m), budget, latest)
}

/// A block's line, in its heading element if it is a heading.
pub open spec fn line_spec(x: Ctx, blk: Block, budget: u64, latest: u64) -> LineOut
    decreases budget, esizes(blk.contents.model()), blk.contents.model().len() + 4,
{
    heading_wrap(x, blk, line_wo_header_spec(x, blk, budget, latest))
}

/// A block reference: the referenced block's line, linked to it if its page is exported; or,
/// when no block has that uid, the reference's text rendered as content. Either takes one unit
/// of `budget`.
pub open spec fn block_ref_spec(x: Ctx, blk: Block, s: Seq<char>, first: bool, budget: u64, latest: u64) -> ExprOut
    decreases budget, 0nat, 0int,
{
    let b = (budget - 1) as u64;
    match block_by_uid(x.graph.blocks@, s) {
        Some(j) => if budget == 0 {
            Err(RenderError::TooDeep)
        } else {
            let rb = x.graph.blocks@[j];
            match line_wo_header_spec(x, rb, b, latest) {
                Err(er) => Err(er),
                Ok((result, _, l)) => match page_by_id_spec(x.tables.pages_by_id@, rb.containing_page) {
                    Some(pg) => if pg.included {
                        Ok((
                            group(
                                seq![
                                    piece("<a class=\"block-ref\" href=\""@ + pg.slug@ + "#"@ + rb.uid@ + "\">"@),
                                    result,
                                    piece("</a>"@),
                                ],
                            ),
                            true,
                            true,
                            l,
                        ))
                    } else {
                        Ok((result, true, true, l))
                    },
                    None => Ok((result, true, true, l)),
                },
            }
        },
        None => match parse_spec(x.graph.content_style, s) {
            None => Err(RenderError::Parse),
            Some(m) => if budget == 0 {
                Err(RenderError::TooDeep)
            } else {
                match exprs_spec(x, blk, m, first, false, b, latest) {
                    Ok((r, rc, l)) => Ok((r, true, rc, l)),
                    Err(er) => Err(er),
                }
            },
        },
    }
}

/// A table made of a block's children.
pub open spec fn table_spec(x: Ctx, blk: Block, budget: u64, latest: u64) -> BlockOut
    decreases budget, 0nat, blk.children@.len() + 2,
{
    match table_rows(x, blk.children@, 0, budget, latest, Seq::empty()) {
        Ok((rows, l)) => Ok((table_html(rows), l)),
        Err(er) => Err(er),
    }
}

pub open spec fn table_rows(
    x: Ctx,
    children: Seq<usize>,
    i: int,
    budget: u64,
    latest: u64,
    acc: Seq<Seq<Rendered>>,
) -> Result<(Seq<Seq<Rendered>>, u64), RenderError>
    decreases budget, 0nat, children.len() - i + 1,
{
    if i < 0 || i >= children.len() {
        Ok((acc, latest))
    } else {
        match descend_spec(x, Seq::empty(), children[i], budget, latest) {
            Ok((rows, l)) => table_rows(x, children, i + 1, budget, l, acc + rows),
            Err(er) => Err(er),
        }
    }
}

/// The rows under a table cell: the cell's line added to the row, then one row per path down
/// through its children. Each cell takes one unit of `budget`.
pub open spec fn descend_spec(x: Ctx, row: Seq<Rendered>, id: usize, budget: u64, latest: u64) -> Result<(Seq<Seq<Rendered>>, u64), RenderError>
    decreases budget, 0nat, 0int,
{
    let b = (budget - 1) as u64;
    match block_by_id(x.graph.blocks@, id) {
        None => Ok((seq![row], latest)),
        Some(j) => if budget == 0 {
            Err(RenderError::TooDeep)
        } else {
            let cb = x.graph.blocks@[j];
            match line_wo_header_spec(x, cb, b, latest) {
                Err(er) => Err(er),
                Ok((cell, _, l)) => {
                    let row2 = row.push(cell);
                    if cb.children@.len() == 0 {
                        Ok((seq![row2], l))
                    } else {
                        descend_children(x, row2, cb.children@, 0, b, l, Seq::empty())
                    }
                },
            }
        },
    }
}

pub open spec fn descend_children(
    x: Ctx,
    row: Seq<Rendered>,
    children: Seq<usize>,
    i: int,
    budget: u64,
    latest: u64,
    acc: Seq<Seq<Rendered>>,
) -> Result<(Seq<Seq<Rendered>>, u64), RenderError>
    decreases budget, 0nat, children.len() - i + 1,
{
    if i < 0 || i >= children.len() {
        Ok((acc, latest))
    } else {
        match descend_spec(x, row, children[i], budget, latest) {
            Ok((rows, l)) => descend_children(x, row, children, i + 1, budget, l, acc + rows),
            Err(er) => Err(er),
        }
    }
}

/// An embedded block, with its children, in a `div`; it takes one unit of `budget`.
pub open spec fn block_embed_spec(x: Ctx, s: Seq<char>, budget: u64, latest: u64) -> BlockOut
    decreases budget, 0nat, 0int,
{
    match block_by_uid(x.graph.blocks@, s) {
        None => Ok((nothing(), latest)),
        Some(j) => if budget == 0 {
            Err(RenderError::TooDeep)
        } else {
            match block_spec(x, x.graph.blocks@[j], ViewType::Bullet, 0, (budget - 1) as u64, latest) {
                Ok((r, l)) => Ok((group(seq![piece(opening_tag("div"@, x.config.class_block_embed@)), r, piece("</div>"@)]), l)),
                Err(er) => Err(er),
            }
        },
    }
}

/// An embedded page, if it may be embedded: its title and its blocks; it takes one unit of
/// `budget`.
pub open spec fn page_embed_spec(x: Ctx, s: Seq<char>, budget: u64, latest: u64) -> BlockOut
    decreases budget, 0nat, 0int,
{
    match lookup_page_spec(x.tables, s) {
        Some(pg) => if pg.allow_embed {
            match block_by_id(x.graph.blocks@, pg.id) {
                None => Err(RenderError::MissingBlock),
                Some(j) => if budget == 0 {
                    Err(RenderError::TooDeep)
                } else {
                    match block_spec(x, x.graph.blocks@[j], ViewType::Bullet, 0, (budget - 1) as u64, latest) {
                        Ok((emb, l)) => Ok((
                            group(
                                seq![
                                    piece(opening_tag("div"@, x.config.class_page_embed_container@)),
                                    piece(opening_tag("div"@, x.config.class_page_embed_title@)),
                                    piece(s),
                                    piece("</div>"@),
                                    piece(opening_tag("div"@, x.config.class_page_embed_content@)),
                                    emb,
                                    piece("</div>\n</div>"@),
                                ],
                            ),
                            l,
                        )),
                        Err(er) => Err(er),
                    }
                },
            }
        } else {
            Ok((nothing(), latest))
        },
        None => Ok((nothing(), latest)),
    }
}

/// What a block and its children render to.
/// An excluded block renders to nothing at once; each child rendered takes one unit of
/// `budget`.
pub open spec fn block_spec(x: Ctx, blk: Block, inherited: ViewType, depth: usize, budget: u64, latest: u64) -> BlockOut
    decreases budget, esizes(blk.contents.model()) + 1, 0int,
{
    if blk.include_type == BlockInclude::Exclude {
        Ok((nothing(), latest))
    } else if depth >= usize::MAX - 2 {
        Err(RenderError::TooDeep)
    } else {
        let line = if blk.include_type == BlockInclude::OnlyChildren {
            Ok((nothing(), true, latest))
        } else {
            line_spec(x, blk, budget, latest)
        };
        match line {
            Err(er) => Err(er),
            Ok((rendered, rc0, l1)) => block_after_line(x, blk, inherited, depth, budget, rendered, rc0, l1),
        }
    }
}

/// What a block and its children render to, once its line is rendered: `rc0` says whether the
/// line lets the children be rendered.
pub open spec fn block_after_line(
    x: Ctx,
    blk: Block,
    inherited: ViewType,
    depth: usize,
    b: u64,
    rendered: Rendered,
    rc0: bool,
    l1: u64,
) -> BlockOut
    decreases b, 0nat, ordered_children(x.graph, blk.children@).len() + 2,
{
    let li_ok = blk.include_type != BlockInclude::OnlyChildren;
    let container = blk.include_type == BlockInclude::AndChildren || blk.include_type
        == BlockInclude::IfChildrenPresent;
    let rc = blk.include_type != BlockInclude::JustBlock && rc0;
    let render_children = rc && blk.children@.len() != 0;
    let numbered = container && has_numbered_child(x.graph, blk.children@);
    let view = resolve_spec(blk.view_type, inherited);
    let l2 = max_u64(l1, blk.edit_time);
    if blank(rendered) && !render_children {
        Ok((nothing(), l2))
    } else {
        block_parts(x, blk, inherited, depth, b, rendered, render_children, child_container(container, numbered, view), view, l2)
    }
}

/// A block that is rendered: its line and its children, with their indentation, list item,
/// wrapper, content element and list element.
pub open spec fn block_parts(
    x: Ctx,
    blk: Block,
    inherited: ViewType,
    depth: usize,
    b: u64,
    rendered: Rendered,
    render_children: bool,
    cc: Option<(Seq<char>, Seq<char>)>,
    view: ViewType,
    l2: u64,
) -> BlockOut
    decreases b, 0nat, ordered_children(x.graph, blk.children@).len() + 1,
{
    let li_ok = blk.include_type != BlockInclude::OnlyChildren;
    let pre = pre_parts(x, blk, inherited, depth, rendered, li_ok, view);
    let li = render_li(blk, inherited, depth, li_ok);
    let (cc_depth, child_depth) = if li_ok {
        ((depth + 1) as usize, (depth + 2) as usize)
    } else {
        (depth, depth)
    };
    let kids = if render_children {
        children_loop(x, ordered_children(x.graph, blk.children@), 0, view, child_depth, b, l2, Seq::empty(), false)
    } else {
        Ok((Seq::empty(), false, l2))
    };
    match kids {
        Err(er) => Err(er),
        Ok((kid_parts, had, l3)) => if blk.include_type == BlockInclude::IfChildrenPresent && !had {
            Ok((nothing(), l3))
        } else {
            Ok((
                group(
                    pre + children_section(cc, cc_depth, render_children, kid_parts) + post_parts(
                        blk,
                        depth,
                        li,
                        render_children,
                        wrapper_of(blk, extra_places(blk, li).0),
                    ),
                ),
                l3,
            ))
        },
    }
}

/// The rendered children, and whether any of them is not blank.
pub open spec fn children_loop(
    x: Ctx,
    kids: Seq<int>,
    i: int,
    view: ViewType,
    child_depth: usize,
    budget: u64,
    latest: u64,
    acc: Seq<Rendered>,
    had: bool,
) -> Result<(Seq<Rendered>, bool, u64), RenderError>
    decreases budget, 0nat, kids.len() - i,
{
    if i < 0 || i >= kids.len() {
        Ok((acc, had, latest))
    } else if !(0 <= kids[i] < x.graph.blocks@.len()) {
        children_loop(x, kids, i + 1, view, child_depth, budget, latest, acc, had)
    } else if budget == 0 {
        Err(RenderError::TooDeep)
    } else {
        match block_spec(x, x.graph.blocks@[kids[i]], view, child_depth, (budget - 1) as u64, latest) {
            Err(er) => Err(er),
            Ok((c, l)) => children_loop(
                x,
                kids,
                i + 1,
                view,
                child_depth,
                budget,
                l,
                acc.push(c),
                had || !blank(c),
            ),
        }
    }
}

/// Whether a block is rendered as a list item.
pub open spec fn render_li(blk: Block, inherited: ViewType, depth: usize, li_ok: bool) -> bool {
    (li_ok && depth > 0 && inherited != ViewType::Document) || blk.this_block_list_type
        == ListType::Number
}

pub open spec fn extra_classes_text(blk: Block) -> Seq<char> {
    join_str(texts(blk.extra_classes@), " "@)
}

/// The classes for the wrapper element and for the list item.
pub open spec fn extra_places(blk: Block, li: bool) -> (Seq<char>, Seq<char>) {
    class_places(extra_classes_text(blk), blk.wrapper_element is Some, li)
}

/// The element that wraps the block, if any: its own wrapper, or a `div` to carry classes.
pub open spec fn wrapper_of(blk: Block, wrapper_classes: Seq<char>) -> Seq<char> {
    match blk.wrapper_element {
        Some(w) => w@,
        None => if wrapper_classes.len() == 0 {
            Seq::empty()
        } else {
            "div"@
        },
    }
}

/// Whether a document-view block's content goes in its own element.
pub open spec fn content_element_used(blk: Block, view: ViewType, li: bool, rendered: Rendered) -> bool {
    view == ViewType::Document && (blk.heading == 0 || blk.content_element is Some) && !li && !blank(
        rendered,
    ) && !(rendered.lead matches Some(t) && has_prefix(t, "<pre"@))
}

/// The parts before the children: indentation, list item, wrapper, content element, the line.
#[verifier::opaque]
pub open spec fn pre_parts(x: Ctx, blk: Block, inherited: ViewType, depth: usize, rendered: Rendered, li_ok: bool, view: ViewType) -> Seq<Rendered> {
    let li = render_li(blk, inherited, depth, li_ok);
    let (wc, lc) = extra_places(blk, li);
    let wrapper = wrapper_of(blk, wc);
    let ce = content_element_used(blk, view, li, rendered);
    seq![piece(indent_text(depth as nat))] + (if li {
        seq![piece(li_open(blk.uid@, lc))]
    } else {
        Seq::empty()
    }) + (if wrapper.len() != 0 {
        seq![piece(opening_tag(wrapper, wc))]
    } else {
        Seq::empty()
    }) + (if ce {
        seq![piece(content_open(blk.uid@, opt_text(blk.content_element)))]
    } else {
        Seq::empty()
    }) + seq![rendered] + (if ce {
        seq![piece(content_close(opt_text(blk.content_element)))]
    } else {
        Seq::empty()
    })
}

/// The children, in their list element if they have one.
#[verifier::opaque]
pub open spec fn children_section(
    cc: Option<(Seq<char>, Seq<char>)>,
    cc_depth: usize,
    render_children: bool,
    kids: Seq<Rendered>,
) -> Seq<Rendered> {
    if !render_children {
        Seq::empty()
    } else {
        seq![piece("\n"@)] + (match cc {
            Some((start, _)) => seq![piece(indent_text(cc_depth as nat)), piece(start)],
            None => Seq::empty(),
        }) + kids + (match cc {
            Some((_, end)) => seq![piece(indent_text(cc_depth as nat)), piece(end)],
            None => Seq::empty(),
        })
    }
}

/// The parts after the children: the wrapper's and the list item's closing tags, and a newline.
#[verifier::opaque]
pub open spec fn post_parts(blk: Block, depth: usize, li: bool, render_children: bool, wrapper: Seq<char>) -> Seq<Rendered> {
    (if wrapper.len() != 0 {
        seq![piece(closing_tag(wrapper))]
    } else {
        Seq::empty()
    }) + (if li {
        (if render_children {
            seq![piece(indent_text(depth as nat))]
        } else {
            Seq::empty()
        }) + seq![piece("</li>"@)]
    } else {
        Seq::empty()
    }) + seq![piece("\n"@)]
}

/// An excluded block renders to nothing, whatever its children, and leaves the latest edit time
/// as it was.
pub proof fn law_excluded_block_renders_nothing(x: Ctx, blk: Block, inherited: ViewType, depth: usize, budget: u64, latest: u64)
    requires
        blk.include_type == BlockInclude::Exclude,
    ensures
        block_spec(x, blk, inherited, depth, budget, latest) == Ok::<(Rendered, u64), RenderError>(
            (nothing(), latest),
        ),
{
}

/// The children of a block are rendered with the view type resolved from the block's own and
/// the one it inherits, which is never `Inherit` when either of the two is not: a child's error
/// is the block's, and otherwise the block ends where its last child left the edit time.
pub proof fn law_children_get_resolved_view(
    x: Ctx,
    blk: Block,
    inherited: ViewType,
    depth: usize,
    budget: u64,
    rendered: Rendered,
    latest: u64,
)
    requires
        inherited != ViewType::Inherit || blk.view_type != ViewType::Inherit,
        blk.include_type != BlockInclude::JustBlock,
        blk.children@.len() != 0,
    ensures
        resolve_spec(blk.view_type, inherited) != ViewType::Inherit,
        ({
            let view = resolve_spec(blk.view_type, inherited);
            let child_depth: usize = if blk.include_type == BlockInclude::OnlyChildren {
                depth
            } else {
                (depth + 2) as usize
            };
            let kids = ordered_children(x.graph, blk.children@);
            match children_loop(x, kids, 0, view, child_depth, budget, max_u64(latest, blk.edit_time), Seq::empty(), false) {
                Err(e) => block_after_line(x, blk, inherited, depth, budget, rendered, true, latest) == Err::<(Rendered, u64), RenderError>(e),
                Ok((_, _, l3)) => block_after_line(x, blk, inherited, depth, budget, rendered, true, latest) matches Ok((_, l)) && l == l3,
            }
        }),
{
    crate::graph::lemma_resolve_inherits_only_from_inherit(blk.view_type, inherited);
}

/// Whether `w` occurs in `t` from position `i`.
pub open spec fn occurs_at(t: Seq<char>, w: Seq<char>, i: int) -> bool {
    0 <= i && i + w.len() <= t.len() && forall|k: int| 0 <= k < w.len() ==> #[trigger] t[i + k] == w[k]
}

/// Whether `w` occurs in `t`.
pub open spec fn occurs_in(t: Seq<char>, w: Seq<char>) -> bool {
    exists|i: int| #[trigger] occurs_at(t, w, i)
}

/// A to-do marker renders as a disabled checkbox, checked exactly when the task is done; the
/// checkbox alone does not make its line render, and the children are rendered.
pub proof fn law_checkbox_checked_iff_done(
    x: Ctx,
    blk: Block,
    done: bool,
    first: bool,
    omit: bool,
    budget: u64,
    latest: u64,
)
    ensures
        expr_spec(x, blk, Expr::Todo { done }, first, omit, budget, latest) matches Ok((r, must, rc, l))
            && !must && rc && l == latest
            && has_prefix(r.text, seq!['<', 'i', 'n', 'p', 'u', 't', ' ', 't', 'y', 'p', 'e', '=', '"', 'c', 'h', 'e', 'c', 'k', 'b', 'o', 'x', '"', ' ', 'd', 'i', 's', 'a', 'b', 'l', 'e', 'd'])
            && (occurs_in(r.text, seq!['c', 'h', 'e', 'c', 'k', 'e', 'd']) <==> done),
{
    reveal_strlit("<input type=\"checkbox\" disabled ");
    reveal_strlit("checked");
    reveal_strlit("");
    reveal_strlit(" />");
    let t = todo_spec(done).text;
    let w = seq!['c', 'h', 'e', 'c', 'k', 'e', 'd'];
    let pre = seq!['<', 'i', 'n', 'p', 'u', 't', ' ', 't', 'y', 'p', 'e', '=', '"', 'c', 'h', 'e', 'c', 'k', 'b', 'o', 'x', '"', ' ', 'd', 'i', 's', 'a', 'b', 'l', 'e', 'd'];
    if done {
        assert(t =~= seq!['<', 'i', 'n', 'p', 'u', 't', ' ', 't', 'y', 'p', 'e', '=', '"', 'c', 'h', 'e', 'c', 'k', 'b', 'o', 'x', '"', ' ', 'd', 'i', 's', 'a', 'b', 'l', 'e', 'd', ' ', 'c', 'h', 'e', 'c', 'k', 'e', 'd', ' ', '/', '>']);
        assert(occurs_at(t, w, 32));
    } else {
        assert(t =~= seq!['<', 'i', 'n', 'p', 'u', 't', ' ', 't', 'y', 'p', 'e', '=', '"', 'c', 'h', 'e', 'c', 'k', 'b', 'o', 'x', '"', ' ', 'd', 'i', 's', 'a', 'b', 'l', 'e', 'd', ' ', ' ', '/', '>']);
        assert forall|i: int| !#[trigger] occurs_at(t, w, i) by {
            if 0 <= i && i + w.len() <= t.len() {
            if i == 0 {
                assert(t[i + 0] != w[0]);
            }
            if i == 1 {
                assert(t[i + 0] != w[0]);
            }
            if i == 2 {
                assert(t[i + 0] != w[0]);
            }
            if i == 3 {
                assert(t[i + 0] != w[0]);
            }
            if i == 4 {
                assert(t[i + 0] != w[0]);
            }
            if i == 5 {
                assert(t[i + 0] != w[0]);
            }
            if i == 6 {
                assert(t[i + 0] != w[0]);
            }
            if i == 7 {
                assert(t[i + 0] != w[0]);
            }
            if i == 8 {
                assert(t[i + 0] != w[0]);
            }
            if i == 9 {
                assert(t[i + 0] != w[0]);
            }
            if i == 10 {
                assert(t[i + 0] != w[0]);
            }
            if i == 11 {
                assert(t[i + 0] != w[0]);
            }
            if i == 12 {
                assert(t[i + 0] != w[0]);
            }
            if i == 13 {
                assert(t[i + 5] != w[5]);
            }
            if i == 14 {
                assert(t[i + 0] != w[0]);
            }
            if i == 15 {
                assert(t[i + 0] != w[0]);
            }
            if i == 16 {
                assert(t[i + 1] != w[1]);
            }
            if i == 17 {
                assert(t[i + 0] != w[0]);
            }
            if i == 18 {
                assert(t[i + 0] != w[0]);
            }
            if i == 19 {
                assert(t[i + 0] != w[0]);
            }
            if i == 20 {
                assert(t[i + 0] != w[0]);
            }
            if i == 21 {
                assert(t[i + 0] != w[0]);
            }
            if i == 22 {
                assert(t[i + 0] != w[0]);
            }
            if i == 23 {
                assert(t[i + 0] != w[0]);
            }
            if i == 24 {
                assert(t[i + 0] != w[0]);
            }
            if i == 25 {
                assert(t[i + 0] != w[0]);
            }
            if i == 26 {
                assert(t[i + 0] != w[0]);
            }
            if i == 27 {
                assert(t[i + 0] != w[0]);
            }
            if i == 28 {
                assert(t[i + 0] != w[0]);
            }
            }
        }
    }
    assert(t.subrange(0, pre.len() as int) =~= pre);
}

/// Text without characters reserved in HTML, and without a `--` to turn into an em dash when
/// that is enabled, is rendered as it is.
pub proof fn law_plain_text_unchanged(c: Config, t: Seq<char>)
    requires
        !needs_escape(t),
        !c.convert_emdash || find_from(t, 0, t.len() as int, seq!['-', '-']) is None,
    ensures
        text_spec(c, t) == t,
{
    lemma_escape_identity(t);
}

/// A hashtag written `#.tag` is wrapped in a span with the tag as class only when its link
/// renders to something.
pub proof fn law_dotted_hashtag_wraps_link(x: Ctx, s: Seq<char>, omit: bool)
    ensures
        link_spec(x, s, None, omit).text.len() == 0 ==> hashtag_spec(x, s, true, omit) == link_spec(
            x,
            s,
            None,
            omit,
        ),
        link_spec(x, s, None, omit).text.len() != 0 ==> hashtag_spec(x, s, true, omit).text
            == "<span class=\""@ + s + "\">"@ + link_spec(x, s, None, omit).text + "</span>"@,
{
    let a = link_spec(x, s, None, omit);
    if a.text.len() != 0 {
        let p0 = piece("<span class=\""@ + s + "\">"@);
        let p2 = piece("</span>"@);
        let parts = seq![p0, a, p2];
        assert(seq![p0].drop_last() =~= Seq::<Rendered>::empty());
        assert(concat_texts(Seq::<Rendered>::empty()) =~= Seq::<char>::empty());
        assert(seq![p0].last() == p0);
        assert(concat_texts(seq![p0]) =~= p0.text);
        assert(seq![p0, a].drop_last() =~= seq![p0]);
        assert(concat_texts(seq![p0, a]) =~= p0.text + a.text);
        assert(parts.drop_last() =~= seq![p0, a]);
        assert(concat_texts(parts) =~= p0.text + a.text + p2.text);
    }
}

/// A link to a page that is not exported, with unexported links left out, renders nothing.
pub proof fn law_unexported_link_omitted(x: Ctx, title: Seq<char>, label: Option<Seq<char>>)
    requires
        !(lookup_page_spec(x.tables, title) matches Some(p) && p.included),
    ensures
        link_spec(x, title, label, true) == nothing(),
{
}

/// A link to a page that is exported renders as an anchor to the page's slug, labelled with the
/// page's output title, whether or not unexported links are left out.
pub proof fn law_exported_link_is_anchor(
    x: Ctx,
    blk: Block,
    title: Seq<char>,
    first: bool,
    omit: bool,
    budget: u64,
    latest: u64,
)
    requires
        lookup_page_spec(x.tables, title) matches Some(p) && p.included,
    ensures
        expr_spec(x, blk, Expr::Link(title), first, omit, budget, latest) == Ok::<
            (Rendered, bool, bool, u64),
            RenderError,
        >(
            (
                piece(
                    "<a href=\""@ + escaped(lookup_page_spec(x.tables, title)->Some_0.slug@) + "\">"@
                        + text_spec(x.config, lookup_page_spec(x.tables, title)->Some_0.output_title@)
                        + "</a>"@,
                ),
                true,
                true,
                latest,
            ),
        ),
{
}

/// A page embed renders nothing when the page it names does not allow embedding, or is not
/// listed at all; the latest edit time stays as it was.
pub proof fn law_embed_needs_permission(x: Ctx, title: Seq<char>, budget: u64, latest: u64)
    requires
        !(lookup_page_spec(x.tables, title) matches Some(p) && p.allow_embed),
    ensures
        page_embed_spec(x, title, budget, latest) == Ok::<(Rendered, u64), RenderError>((nothing(), latest)),
{
}

pub open spec fn expr_later(r: ExprOut, l: u64) -> bool {
    r matches Ok((_, _, _, x)) ==> x >= l
}

pub open spec fn line_later(r: LineOut, l: u64) -> bool {
    r matches Ok((_, _, x)) ==> x >= l
}

pub open spec fn block_later(r: BlockOut, l: u64) -> bool {
    r matches Ok((_, x)) ==> x >= l
}

pub open spec fn rows_later(r: Result<(Seq<Seq<Rendered>>, u64), RenderError>, l: u64) -> bool {
    r matches Ok((_, x)) ==> x >= l
}

pub open spec fn kids_later(r: Result<(Seq<Rendered>, bool, u64), RenderError>, l: u64) -> bool {
    r matches Ok((_, _, x)) ==> x >= l
}

proof fn lemma_expr_later(x: Ctx, blk: Block, e: Expr, first: bool, omit: bool, budget: u64, latest: u64)
    ensures
        expr_later(expr_spec(x, blk, e, first, omit, budget, latest), latest),
    decreases budget, esize(e), 0int,
{
    match e {
        Expr::Bold(v) => lemma_exprs_later(x, blk, v, false, false, budget, latest),
        Expr::Italic(v) => lemma_exprs_later(x, blk, v, false, false, budget, latest),
        Expr::Strike(v) => lemma_exprs_later(x, blk, v, false, false, budget, latest),
        Expr::Highlight(v) => lemma_exprs_later(x, blk, v, false, false, budget, latest),
        Expr::BlockQuote(v) => lemma_exprs_later(x, blk, v, false, false, budget, latest),
        Expr::Attribute { name, value } => lemma_exprs_later(x, blk, value, false, false, budget, latest),
        Expr::BlockRef(s) => lemma_block_ref_later(x, blk, s, first, budget, latest),
        Expr::BraceDirective(s) => lemma_table_later(x, blk, budget, latest),
        Expr::Table => lemma_table_later(x, blk, budget, latest),
        Expr::BlockEmbed(s) => lemma_block_embed_later(x, s, budget, latest),
        Expr::PageEmbed(s) => lemma_page_embed_later(x, s, budget, latest),
        _ => {},
    }
}

proof fn lemma_exprs_later(x: Ctx, blk: Block, es: Seq<Expr>, first: bool, omit: bool, budget: u64, latest: u64)
    ensures
        line_later(exprs_spec(x, blk, es, first, omit, budget, latest), latest),
    decreases budget, esizes(es), es.len() + 2,
{
    lemma_exprs_loop_later(x, blk, es, 0, first, omit, budget, latest, Seq::empty(), false, true);
}

proof fn lemma_exprs_loop_later(
    x: Ctx,
    blk: Block,
    es: Seq<Expr>,
    i: int,
    first: bool,
    omit: bool,
    budget: u64,
    latest: u64,
    acc: Seq<Rendered>,
    should: bool,
    rc: bool,
)
    ensures
        line_later(exprs_loop(x, blk, es, i, first, omit, budget, latest, acc, should, rc), latest),
    decreases budget, esizes(es), es.len() - i + 1,
{
    if 0 <= i < es.len() {
        lemma_esize_within(es, i);
        lemma_expr_later(x, blk, es[i], first && i == 0, omit, budget, latest);
        match expr_spec(x, blk, es[i], first && i == 0, omit, budget, latest) {
            Ok((r, must, rc2, l)) => lemma_exprs_loop_later(
                x,
                blk,
                es,
                i + 1,
                first,
                omit,
                budget,
                l,
                acc.push(r),
                should || (!blank(r) && must),
                rc && rc2,
            ),
            Err(_) => {},
        }
    }
}

proof fn lemma_line_wo_later(x: Ctx, blk: Block, budget: u64, latest: u64)
    ensures
        line_later(line_wo_header_spec(x, blk, budget, latest), latest),
    decreases budget, esizes(blk.contents.model()), blk.contents.model().len() + 3,
{
    let m = blk.contents.model();
    lemma_exprs_later(x, blk, m, true, x.config.filter_link_only_blocks && link_only(m), budget, latest);
}

proof fn lemma_line_later(x: Ctx, blk: Block, budget: u64, latest: u64)
    ensures
        line_later(line_spec(x, blk, budget, latest), latest),
    decreases budget, esizes(blk.contents.model()), blk.contents.model().len() + 4,
{
    lemma_line_wo_later(x, blk, budget, latest);
}

proof fn lemma_block_ref_later(x: Ctx, blk: Block, s: Seq<char>, first: bool, budget: u64, latest: u64)
    ensures
        expr_later(block_ref_spec(x, blk, s, first, budget, latest), latest),
    decreases budget, 0nat, 0int,
{
    if budget > 0 {
        let b = (budget - 1) as u64;
        match block_by_uid(x.graph.blocks@, s) {
            Some(j) => lemma_line_wo_later(x, x.graph.blocks@[j], b, latest),
            None => match parse_spec(x.graph.content_style, s) {
                Some(m) => lemma_exprs_later(x, blk, m, first, false, b, latest),
                None => {},
            },
        }
    }
}

proof fn lemma_table_later(x: Ctx, blk: Block, budget: u64, latest: u64)
    ensures
        block_later(table_spec(x, blk, budget, latest), latest),
    decreases budget, 0nat, blk.children@.len() + 2,
{
    lemma_table_rows_later(x, blk.children@, 0, budget, latest, Seq::empty());
}

proof fn lemma_table_rows_later(x: Ctx, children: Seq<usize>, i: int, budget: u64, latest: u64, acc: Seq<Seq<Rendered>>)
    ensures
        rows_later(table_rows(x, children, i, budget, latest, acc), latest),
    decreases budget, 0nat, children.len() - i + 1,
{
    if 0 <= i < children.len() {
        lemma_descend_later(x, Seq::empty(), children[i], budget, latest);
        match descend_spec(x, Seq::empty(), children[i], budget, latest) {
            Ok((rows, l)) => lemma_table_rows_later(x, children, i + 1, budget, l, acc + rows),
            Err(_) => {},
        }
    }
}

proof fn lemma_descend_later(x: Ctx, row: Seq<Rendered>, id: usize, budget: u64, latest: u64)
    ensures
        rows_later(descend_spec(x, row, id, budget, latest), latest),
    decreases budget, 0nat, 0int,
{
    if budget > 0 {
        let b = (budget - 1) as u64;
        match block_by_id(x.graph.blocks@, id) {
            Some(j) => {
                let cb = x.graph.blocks@[j];
                lemma_line_wo_later(x, cb, b, latest);
                match line_wo_header_spec(x, cb, b, latest) {
                    Ok((cell, _, l)) => lemma_descend_children_later(x, row.push(cell), cb.children@, 0, b, l, Seq::empty()),
                    Err(_) => {},
                }
            },
            None => {},
        }
    }
}

proof fn lemma_descend_children_later(
    x: Ctx,
    row: Seq<Rendered>,
    children: Seq<usize>,
    i: int,
    budget: u64,
    latest: u64,
    acc: Seq<Seq<Rendered>>,
)
    ensures
        rows_later(descend_children(x, row, children, i, budget, latest, acc), latest),
    decreases budget, 0nat, children.len() - i + 1,
{
    if 0 <= i < children.len() {
        lemma_descend_later(x, row, children[i], budget, latest);
        match descend_spec(x, row, children[i], budget, latest) {
            Ok((rows, l)) => lemma_descend_children_later(x, row, children, i + 1, budget, l, acc + rows),
            Err(_) => {},
        }
    }
}

proof fn lemma_block_embed_later(x: Ctx, s: Seq<char>, budget: u64, latest: u64)
    ensures
        block_later(block_embed_spec(x, s, budget, latest), latest),
    decreases budget, 0nat, 0int,
{
    if budget > 0 {
        match block_by_uid(x.graph.blocks@, s) {
            Some(j) => lemma_block_later(x, x.graph.blocks@[j], ViewType::Bullet, 0, (budget - 1) as u64, latest),
            None => {},
        }
    }
}

proof fn lemma_page_embed_later(x: Ctx, s: Seq<char>, budget: u64, latest: u64)
    ensures
        block_later(page_embed_spec(x, s, budget, latest), latest),
    decreases budget, 0nat, 0int,
{
    if budget > 0 {
        match lookup_page_spec(x.tables, s) {
            Some(pg) => match block_by_id(x.graph.blocks@, pg.id) {
                Some(j) => lemma_block_later(x, x.graph.blocks@[j], ViewType::Bullet, 0, (budget - 1) as u64, latest),
                None => {},
            },
            None => {},
        }
    }
}

proof fn lemma_block_later(x: Ctx, blk: Block, inherited: ViewType, depth: usize, budget: u64, latest: u64)
    ensures
        block_later(block_spec(x, blk, inherited, depth, budget, latest), latest),
    decreases budget, esizes(blk.contents.model()) + 1, 0int,
{
    if depth < usize::MAX - 2 && blk.include_type != BlockInclude::Exclude {
        if blk.include_type == BlockInclude::OnlyChildren {
            lemma_block_after_line_later(x, blk, inherited, depth, budget, nothing(), true, latest);
        } else {
            lemma_line_later(x, blk, budget, latest);
            match line_spec(x, blk, budget, latest) {
                Ok((r, rc0, l1)) => lemma_block_after_line_later(x, blk, inherited, depth, budget, r, rc0, l1),
                Err(_) => {},
            }
        }
    }
}

proof fn lemma_block_after_line_later(
    x: Ctx,
    blk: Block,
    inherited: ViewType,
    depth: usize,
    b: u64,
    rendered: Rendered,
    rc0: bool,
    l1: u64,
)
    ensures
        block_later(block_after_line(x, blk, inherited, depth, b, rendered, rc0, l1), l1),
    decreases b, 0nat, ordered_children(x.graph, blk.children@).len() + 2,
{
    let container = blk.include_type == BlockInclude::AndChildren || blk.include_type
        == BlockInclude::IfChildrenPresent;
    let rc = blk.include_type != BlockInclude::JustBlock && rc0;
    let render_children = rc && blk.children@.len() != 0;
    let numbered = container && has_numbered_child(x.graph, blk.children@);
    let view = resolve_spec(blk.view_type, inherited);
    let l2 = max_u64(l1, blk.edit_time);
    lemma_block_parts_later(x, blk, inherited, depth, b, rendered, render_children, child_container(container, numbered, view), view, l2);
}

proof fn lemma_block_parts_later(
    x: Ctx,
    blk: Block,
    inherited: ViewType,
    depth: usize,
    b: u64,
    rendered: Rendered,
    render_children: bool,
    cc: Option<(Seq<char>, Seq<char>)>,
    view: ViewType,
    l2: u64,
)
    ensures
        block_later(block_parts(x, blk, inherited, depth, b, rendered, render_children, cc, view, l2), l2),
    decreases b, 0nat, ordered_children(x.graph, blk.children@).len() + 1,
{
    let li_ok = blk.include_type != BlockInclude::OnlyChildren;
    let child_depth: usize = if li_ok {
        (depth + 2) as usize
    } else {
        depth
    };
    if render_children {
        lemma_children_loop_later(x, ordered_children(x.graph, blk.children@), 0, view, child_depth, b, l2, Seq::empty(), false);
    }
}

proof fn lemma_children_loop_later(
    x: Ctx,
    kids: Seq<int>,
    i: int,
    view: ViewType,
    child_depth: usize,
    budget: u64,
    latest: u64,
    acc: Seq<Rendered>,
    had: bool,
)
    ensures
        kids_later(children_loop(x, kids, i, view, child_depth, budget, latest, acc, had), latest),
    decreases budget, 0nat, kids.len() - i,
{
    if 0 <= i < kids.len() {
        if !(0 <= kids[i] < x.graph.blocks@.len()) {
            lemma_children_loop_later(x, kids, i + 1, view, child_depth, budget, latest, acc, had);
        } else if budget > 0 {
            let c = x.graph.blocks@[kids[i]];
            lemma_block_later(x, c, view, child_depth, (budget - 1) as u64, latest);
            match block_spec(x, c, view, child_depth, (budget - 1) as u64, latest) {
                Ok((r, l)) => lemma_children_loop_later(x, kids, i + 1, view, child_depth, budget, l, acc.push(r), had || !blank(r)),
                Err(_) => {},
            }
        }
    }
}

/// Rendering a block never moves the latest edit time found back: what it returns is at least
/// the latest edit time it was given.
pub proof fn law_latest_edit_time_only_grows(x: Ctx, blk: Block, inherited: ViewType, depth: usize, budget: u64, latest: u64)
    ensures
        block_spec(x, blk, inherited, depth, budget, latest) matches Ok((_, l)) ==> l >= latest,
{
    lemma_block_later(x, blk, inherited, depth, budget, latest);
}

} // verus!
