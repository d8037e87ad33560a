//! Rendering a page's blocks: expressions, lines, tables, embeds and nested children.
use vstd::prelude::*;

use crate::chars::{chars_equal, to_chars};
use crate::graph::{lemma_resolve_inherits_only_from_inherit, Block, BlockInclude, ListType, ViewType};
use crate::html::escape;
use crate::logseq::file::join_texts;
use crate::parse_string::{
    esize, esizes, expr_model, exprs_model, lemma_esize_within, lemma_expr_model_of, lemma_exprs_model_index, lemma_exprs_model_len,
    try_parse, Expr, Expression,
};
use crate::render::{
    block_by_id, closing_tag, indent_text, opening_tag, write_depth, find_block, find_block_by_uid, katex_render, last_key_index, lookup_page, page_by_id,
    render_closing_tag, render_opening_tag, Page, RenderError,
};
use crate::render_spec::{
    Ctx,
    attribute_wrap, blank, block_after_line, block_parts, children_section, content_element_used, extra_places, render_li, wrapper_of, cell_parts, child_container, content_close, content_open, has_numbered_child,
    insert_by_order, li_open, opt_text, ordered_children, post_parts, present_children, row_html,
    rows_html, sort_by_order, table_html, contains_text, block_embed_spec, block_ref_spec, block_spec,
    children_loop, descend_children, descend_spec, expr_spec, exprs_loop, exprs_spec, line_spec,
    line_wo_header_spec, page_embed_spec, pre_parts, render_budget, table_rows, table_spec, heading_level, heading_wrap, link_only, link_only_expr, style_wrap,
    BlockOut, ExprOut, LineOut,
};
use crate::string_builder::{
    lemma_starts_with_lead, all_ws, group, has_prefix, piece, rendered, rendered_all, Rendered, StringBuilder,
};

verus! {

/// An expression's output matches its specification.
pub open spec fn expr_out_matches(r: Result<(StringBuilder, bool, bool), RenderError>, s: ExprOut, latest: u64) -> bool {
    match s {
        Ok((x, m, rc, l)) => r matches Ok((sb, m2, rc2)) && rendered(sb) == x && m2 == m && rc2
            == rc && latest == l,
        Err(e) => r == Err::<(StringBuilder, bool, bool), RenderError>(e),
    }
}

/// A line's output matches its specification.
pub open spec fn line_out_matches(r: Result<(StringBuilder, bool), RenderError>, s: LineOut, latest: u64) -> bool {
    match s {
        Ok((x, rc, l)) => r matches Ok((sb, rc2)) && rendered(sb) == x && rc2 == rc && latest == l,
        Err(e) => r == Err::<(StringBuilder, bool), RenderError>(e),
    }
}

/// A block's output matches its specification.
pub open spec fn block_out_matches(r: Result<StringBuilder, RenderError>, s: BlockOut, latest: u64) -> bool {
    match s {
        Ok((x, l)) => r matches Ok(sb) && rendered(sb) == x && latest == l,
        Err(e) => r == Err::<StringBuilder, RenderError>(e),
    }
}

pub open spec fn rows_rendered(v: Seq<Vec<StringBuilder>>) -> Seq<Seq<Rendered>> {
    v.map_values(|r: Vec<StringBuilder>| rendered_all(r@))
}

/// Rows' output matches their specification.
pub open spec fn rows_out_matches(
    r: Result<Vec<Vec<StringBuilder>>, RenderError>,
    s: Result<(Seq<Seq<Rendered>>, u64), RenderError>,
    latest: u64,
) -> bool {
    match s {
        Ok((x, l)) => r matches Ok(v) && rows_rendered(v@) == x && latest == l,
        Err(e) => r == Err::<Vec<Vec<StringBuilder>>, RenderError>(e),
    }
}

fn text_is_blank(t: &String) -> (r: bool)
    ensures
        r == all_ws(t@),
{
    let sb = StringBuilder::leaf(t.clone());
    sb.is_blank()
}

fn text_starts_with(s: &str, p: &str) -> (r: bool)
    ensures
        r == has_prefix(s@, p@),
{
    let v = to_chars(s);
    let w = to_chars(p);
    if w.len() > v.len() {
        return false;
    }
    let mut i: usize = 0;
    while i < w.len()
        invariant
            v@ == s@,
            w@ == p@,
            w@.len() <= v@.len(),
            i <= w@.len(),
            forall|k: int| 0 <= k < i ==> v@[k] == w@[k],
        decreases w@.len() - i,
    {
        if v[i] != w[i] {
            assert(v@.subrange(0, w@.len() as int)[i as int] != w@[i as int]);
            return false;
        }
        i = i + 1;
    }
    assert(v@.subrange(0, w@.len() as int) =~= w@);
    true
}

fn contains_name(v: &Vec<String>, s: &str) -> (r: bool)
    ensures
        r == contains_text(v@, s@),
{
    let mut i: usize = 0;
    while i < v.len()
        invariant
            i <= v@.len(),
            forall|k: int| 0 <= k < i ==> (#[trigger] v@[k])@ != s@,
        decreases v@.len() - i,
    {
        let k = to_chars(v[i].as_str());
        if chars_equal(&k, s) {
            return true;
        }
        i = i + 1;
    }
    false
}

fn expr_is_link_only(e: &Expression) -> (r: bool)
    ensures
        r == link_only_expr(expr_model(*e)),
{
    proof {
        lemma_expr_model_of(*e);
    }
    match e {
        Expression::Link(_) => true,
        Expression::Hashtag(_, _) => true,
        Expression::Todo { .. } => true,
        Expression::Text(t) => text_is_blank(t),
        _ => false,
    }
}

fn is_link_only(es: &Vec<Expression>) -> (r: bool)
    ensures
        r == link_only(exprs_model(es@)),
{
    let ghost m = exprs_model(es@);
    proof {
        lemma_exprs_model_len(es@);
    }
    let mut i: usize = 0;
    while i < es.len()
        invariant
            i <= es@.len(),
            m == exprs_model(es@),
            m.len() == es@.len(),
            forall|k: int| 0 <= k < i ==> #[trigger] link_only_expr(m[k]),
        decreases es@.len() - i,
    {
        proof {
            lemma_exprs_model_index(es@, i as int);
        }
        if !expr_is_link_only(&es[i]) {
            assert(!link_only_expr(m[i as int]));
            return false;
        }
        i = i + 1;
    }
    true
}

/// Three builders one after another.
fn group3(a: StringBuilder, b: StringBuilder, c: StringBuilder) -> (r: StringBuilder)
    ensures
        rendered(r) == group(seq![rendered(a), rendered(b), rendered(c)]),
{
    let ghost ra = rendered(a);
    let ghost rb = rendered(b);
    let ghost rc = rendered(c);
    let mut parts: Vec<StringBuilder> = Vec::new();
    parts.push(a);
    parts.push(b);
    parts.push(c);
    assert(rendered_all(parts@) =~= seq![ra, rb, rc]);
    StringBuilder::group_of(parts)
}

fn text(s: &str) -> (r: StringBuilder)
    ensures
        rendered(r) == piece(s@),
{
    StringBuilder::leaf(s.to_owned())
}

/// A line in a styling element.
fn wrap_style(
    tag: &str,
    class: &str,
    r: Result<(StringBuilder, bool), RenderError>,
    Ghost(s): Ghost<LineOut>,
    Ghost(l): Ghost<u64>,
) -> (out: Result<(StringBuilder, bool, bool), RenderError>)
    requires
        line_out_matches(r, s, l),
    ensures
        expr_out_matches(out, style_wrap(tag@, class@, s), l),
{
    match r {
        Ok((sb, rc)) => {
            let g = group3(
                StringBuilder::leaf(render_opening_tag(tag, class)),
                sb,
                StringBuilder::leaf(render_closing_tag(tag)),
            );
            Ok((g, true, rc))
        },
        Err(e) => Err(e),
    }
}

impl<'a> Page<'a> {
    /// An attribute's name and value.
    fn wrap_attribute(
        &self,
        name: &str,
        first: bool,
        r: Result<(StringBuilder, bool), RenderError>,
        Ghost(s): Ghost<LineOut>,
        Ghost(l): Ghost<u64>,
    ) -> (out: Result<(StringBuilder, bool, bool), RenderError>)
        requires
            line_out_matches(r, s, l),
        ensures
            expr_out_matches(out, attribute_wrap(self.ctx(), name@, first, s), l),
    {
        match r {
            Ok((sb, rc)) => {
                let mut parts: Vec<StringBuilder> = Vec::new();
                let p0 = if first {
                    text("<span>")
                } else {
                    text("<br /><span>")
                };
                let p1 = StringBuilder::leaf(render_opening_tag("span", self.config.class_attr_name.as_str()));
                let p2 = StringBuilder::leaf(escape(name));
                let p3 = text(":</span> ");
                let p4 = StringBuilder::leaf(render_opening_tag("span", self.config.class_attr_value.as_str()));
                let p6 = text("</span></span>");
                let ghost rs = seq![
                    rendered(p0),
                    rendered(p1),
                    rendered(p2),
                    rendered(p3),
                    rendered(p4),
                    rendered(sb),
                    rendered(p6),
                ];
                parts.push(p0);
                parts.push(p1);
                parts.push(p2);
                parts.push(p3);
                parts.push(p4);
                parts.push(sb);
                parts.push(p6);
                assert(rendered_all(parts@) =~= rs);
                Ok((StringBuilder::group_of(parts), true, rc))
            },
            Err(e) => Err(e),
        }
    }

    /// A block's line in its heading element, when it is a heading and not blank.
    fn wrap_heading(
        &self,
        blk: &Block,
        r: Result<(StringBuilder, bool), RenderError>,
        Ghost(s): Ghost<LineOut>,
        Ghost(l): Ghost<u64>,
    ) -> (out: Result<(StringBuilder, bool), RenderError>)
        requires
            line_out_matches(r, s, l),
        ensures
            line_out_matches(out, heading_wrap(self.ctx(), *blk, s), l),
    {
        let level: i128 = if blk.heading > 0 {
            let h = blk.heading as i128 + self.heading_delta as i128;
            if h < 1 {
                1
            } else {
                h
            }
        } else {
            0
        };
        assert(level == heading_level(blk.heading, self.heading_delta));
        let tag: &str = if level == 1 {
            "h1"
        } else if level == 2 {
            "h2"
        } else if level == 3 {
            "h3"
        } else if level == 4 {
            "h4"
        } else {
            ""
        };
        let class: &str = if level == 1 {
            self.config.class_heading1.as_str()
        } else if level == 2 {
            self.config.class_heading2.as_str()
        } else if level == 3 {
            self.config.class_heading3.as_str()
        } else if level == 4 {
            self.config.class_heading4.as_str()
        } else {
            ""
        };
        match r {
            Ok((sb, rc)) => {
                if sb.is_blank() || tag.is_empty() {
                    Ok((sb, rc))
                } else {
                    let g = group3(
                        StringBuilder::leaf(render_opening_tag(tag, class)),
                        sb,
                        StringBuilder::leaf(render_closing_tag(tag)),
                    );
                    Ok((g, rc))
                }
            },
            Err(e) => Err(e),
        }
    }
}

fn push_part(v: &mut Vec<StringBuilder>, x: StringBuilder)
    ensures
        rendered_all(final(v)@) == rendered_all(old(v)@).push(rendered(x)),
{
    let ghost r0 = rendered_all(v@);
    let ghost rx = rendered(x);
    v.push(x);
    assert(rendered_all(v@) =~= r0.push(rx));
}

fn append_parts(v: &mut Vec<StringBuilder>, w: Vec<StringBuilder>)
    ensures
        rendered_all(final(v)@) == rendered_all(old(v)@) + rendered_all(w@),
{
    let ghost r0 = rendered_all(v@);
    let ghost rw = rendered_all(w@);
    let mut w = w;
    v.append(&mut w);
    assert(rendered_all(v@) =~= r0 + rw);
}

fn append_rows(v: &mut Vec<Vec<StringBuilder>>, w: Vec<Vec<StringBuilder>>)
    ensures
        rows_rendered(final(v)@) == rows_rendered(old(v)@) + rows_rendered(w@),
{
    let ghost r0 = rows_rendered(v@);
    let ghost rw = rows_rendered(w@);
    let mut w = w;
    v.append(&mut w);
    assert(rows_rendered(v@) =~= r0 + rw);
}

fn copy_row(row: &Vec<StringBuilder>) -> (r: Vec<StringBuilder>)
    ensures
        rendered_all(r@) == rendered_all(row@),
{
    let mut out: Vec<StringBuilder> = Vec::new();
    let mut i: usize = 0;
    while i < row.len()
        invariant
            i <= row@.len(),
            rendered_all(out@) == rendered_all(row@.take(i as int)),
        decreases row@.len() - i,
    {
        push_part(&mut out, row[i].copy());
        assert(rendered_all(row@.take(i + 1)) =~= rendered_all(row@.take(i as int)).push(rendered(row@[i as int])));
        i = i + 1;
    }
    assert(row@.take(row@.len() as int) =~= row@);
    out
}

/// A table row as HTML.
fn row_builder(row: Vec<StringBuilder>) -> (r: StringBuilder)
    ensures
        rendered(r) == row_html(rendered_all(row@)),
{
    let mut parts: Vec<StringBuilder> = Vec::new();
    push_part(&mut parts, text("  <tr>\n"));
    let ghost head = rendered_all(parts@);
    let mut row = row;
    let ghost cells = rendered_all(row@);
    let n = row.len();
    let mut i: usize = 0;
    while i < n
        invariant
            n == cells.len(),
            i <= n,
            rendered_all(row@) == cells.subrange(i as int, n as int),
            rendered_all(parts@) == head + cell_parts(cells.take(i as int)),
        decreases n - i,
    {
        let ghost r0 = row@;
        assert(rendered_all(row@).len() == row@.len());
        assert(row@.len() == n - i);
        let cell = row.remove(0);
        assert(rendered(cell) == cells[i as int]) by {
            assert(rendered_all(r0)[0] == rendered(r0[0]));
            assert(cells.subrange(i as int, n as int)[0] == cells[i as int]);
        }
        let ghost p0 = rendered_all(parts@);
        push_part(&mut parts, text("    <td>"));
        push_part(&mut parts, cell);
        push_part(&mut parts, text("</td>\n"));
        assert(cells.take(i + 1).drop_last() =~= cells.take(i as int));
        assert(rendered_all(parts@) =~= p0 + seq![piece("    <td>"@), cells[i as int], piece("</td>\n"@)]);
        assert forall|k: int| 0 <= k < row@.len() implies #[trigger] rendered_all(row@)[k] == cells[i + 1
            + k] by {
            assert(row@[k] == r0[k + 1]);
            assert(rendered_all(r0)[k + 1] == rendered(r0[k + 1]));
            assert(cells.subrange(i as int, n as int)[k + 1] == cells[i + 1 + k]);
        }
        assert(rendered_all(row@) =~= cells.subrange(i + 1, n as int));
        i = i + 1;
    }
    let ghost p0 = rendered_all(parts@);
    push_part(&mut parts, text("  </tr>\n"));
    assert(cells.take(n as int) =~= cells);
    assert(rendered_all(parts@) =~= seq![piece("  <tr>\n"@)] + cell_parts(cells) + seq![piece("  </tr>\n"@)]);
    StringBuilder::group_of(parts)
}

/// The table of all rows.
fn table_builder(rows: Vec<Vec<StringBuilder>>) -> (r: StringBuilder)
    ensures
        rendered(r) == table_html(rows_rendered(rows@)),
{
    let ghost rr = rows_rendered(rows@);
    let mut rows = rows;
    let n = rows.len();
    let mut out: Vec<StringBuilder> = Vec::new();
    let mut i: usize = 0;
    while i < n
        invariant
            n == rr.len(),
            i <= n,
            rows_rendered(rows@) == rr.subrange(i as int, n as int),
            rendered_all(out@) == rows_html(rr.take(i as int)),
        decreases n - i,
    {
        let ghost r0 = rows@;
        assert(rows_rendered(rows@).len() == rows@.len());
        assert(rows@.len() == n - i);
        let row = rows.remove(0);
        assert(rendered_all(row@) == rr[i as int]) by {
            assert(rows_rendered(r0)[0] == rendered_all(r0[0]@));
            assert(rr.subrange(i as int, n as int)[0] == rr[i as int]);
        }
        push_part(&mut out, row_builder(row));
        assert(rows_html(rr.take(i + 1)) =~= rows_html(rr.take(i as int)).push(row_html(rr[i as int])));
        assert forall|k: int| 0 <= k < rows@.len() implies #[trigger] rows_rendered(rows@)[k] == rr[i + 1
            + k] by {
            assert(rows@[k] == r0[k + 1]);
            assert(rows_rendered(r0)[k + 1] == rendered_all(r0[k + 1]@));
            assert(rr.subrange(i as int, n as int)[k + 1] == rr[i + 1 + k]);
        }
        assert(rows_rendered(rows@) =~= rr.subrange(i + 1, n as int));
        i = i + 1;
    }
    assert(rr.take(n as int) =~= rr);
    group3(
        text("\n<div class=\"roam-table\"><table><tbody>\n"),
        StringBuilder::group_of(out),
        text("</tbody></table></div>\n"),
    )
}

/// Positions as integers.
pub open spec fn as_ints(v: Seq<usize>) -> Seq<int> {
    v.map_values(|k: usize| k as int)
}

fn child_container_tags(container: bool, numbered: bool, view: ViewType) -> (r: Option<(&'static str, &'static str)>)
    ensures
        match child_container(container, numbered, view) {
            Some((a, b)) => r matches Some((x, y)) && x@ == a && y@ == b,
            None => r is None,
        },
{
    if !container {
        None
    } else if numbered || view == ViewType::Numbered {
        Some(("<ol class=\"list-numbered\">\n", "</ol>"))
    } else if view == ViewType::Bullet {
        Some(("<ul class=\"list-bullet\">\n", "</ul>"))
    } else {
        None
    }
}

fn li_opening(uid: &str, classes: &str) -> (r: String)
    ensures
        r@ == li_open(uid@, classes@),
{
    if uid.is_empty() {
        render_opening_tag("li", classes)
    } else if classes.is_empty() {
        let mut out = "<li id=\"".to_owned();
        out.append(uid);
        out.append("\">");
        out
    } else {
        let mut out = "<li id=\"".to_owned();
        out.append(uid);
        out.append("\" class=\"");
        out.append(classes);
        out.append("\">");
        out
    }
}

fn content_opening(uid: &str, element: &Option<String>) -> (r: String)
    ensures
        r@ == content_open(uid@, opt_text(*element)),
{
    if uid.is_empty() {
        match element {
            Some(e) => {
                let mut out = "<".to_owned();
                out.append(e.as_str());
                out.append(">");
                out
            },
            None => "<p>".to_owned(),
        }
    } else {
        let mut out = "<".to_owned();
        match element {
            Some(e) => out.append(e.as_str()),
            None => out.append("p"),
        }
        out.append(" id=\"");
        out.append(uid);
        out.append("\">");
        out
    }
}

fn content_closing(element: &Option<String>) -> (r: String)
    ensures
        r@ == content_close(opt_text(*element)),
{
    match element {
        Some(e) => {
            let mut out = "</".to_owned();
            out.append(e.as_str());
            out.append(">");
            out
        },
        None => "</p>".to_owned(),
    }
}

fn post_builders(blk: &Block, depth: usize, li: bool, render_children: bool, wrapper: &str) -> (r: Vec<StringBuilder>)
    ensures
        rendered_all(r@) == post_parts(*blk, depth, li, render_children, wrapper@),
{
    let mut out: Vec<StringBuilder> = Vec::new();
    if !wrapper.is_empty() {
        push_part(&mut out, StringBuilder::leaf(render_closing_tag(wrapper)));
    }
    let ghost a = rendered_all(out@);
    if li {
        if render_children {
            push_part(&mut out, StringBuilder::leaf(write_depth(depth)));
        }
        push_part(&mut out, text("</li>"));
    }
    let ghost c = rendered_all(out@);
    push_part(&mut out, text("\n"));
    assert(rendered_all(out@) =~= post_parts(*blk, depth, li, render_children, wrapper@)) by {
        reveal(post_parts);
    }
    out
}

/// Where a block's parts go: whether it is a list item, the classes for its wrapper element and
/// for its list item, its wrapper element, and whether its content gets an element of its own.
fn block_layout(blk: &Block, inherited: ViewType, depth: usize, li_ok: bool, view: ViewType, line: &StringBuilder) -> (r: (
    bool,
    String,
    String,
    String,
    bool,
))
    ensures
        r.0 == render_li(*blk, inherited, depth, li_ok),
        r.1@ == extra_places(*blk, r.0).0,
        r.2@ == extra_places(*blk, r.0).1,
        r.3@ == wrapper_of(*blk, r.1@),
        r.4 == content_element_used(*blk, view, r.0, rendered(*line)),
{
    let li = (li_ok && depth > 0 && inherited != ViewType::Document) || blk.this_block_list_type
        == ListType::Number;
    let extra = join_texts(&blk.extra_classes, " ");
    let (wc, lc): (String, String) = if extra.as_str().is_empty() {
        (String::new(), String::new())
    } else if blk.wrapper_element.is_some() || !li {
        (extra, String::new())
    } else {
        (String::new(), extra)
    };
    let wrapper: String = match &blk.wrapper_element {
        Some(w) => w.clone(),
        None => if wc.as_str().is_empty() {
            String::new()
        } else {
            "div".to_owned()
        },
    };
    proof {
        lemma_starts_with_lead(*line, "<pre"@);
    }
    let ce = view == ViewType::Document && (blk.heading == 0 || blk.content_element.is_some()) && !li
        && !line.is_blank() && !line.starts_with("<pre");
    (li, wc, lc, wrapper, ce)
}

impl<'a> Page<'a> {
    /// Whether any child is a numbered list item.
    fn has_numbered_list_child(&self, children: &Vec<usize>) -> (r: bool)
        ensures
            r == has_numbered_child(*self.graph, children@),
    {
        let mut i: usize = 0;
        while i < children.len()
            invariant
                i <= children@.len(),
                forall|k: int|
                    0 <= k < i ==> !(match block_by_id(self.graph.blocks@, #[trigger] children@[k]) {
                        Some(j) => self.graph.blocks@[j].this_block_list_type == ListType::Number,
                        None => false,
                    }),
            decreases children@.len() - i,
        {
            match find_block(&self.graph.blocks, children[i]) {
                Some(j) => {
                    if self.graph.blocks[j].this_block_list_type == ListType::Number {
                        assert(match block_by_id(self.graph.blocks@, children@[i as int]) {
                            Some(j) => self.graph.blocks@[j].this_block_list_type == ListType::Number,
                            None => false,
                        });
                        return true;
                    }
                },
                None => {},
            }
            i = i + 1;
        }
        false
    }

    fn present_child_blocks(&self, children: &Vec<usize>) -> (r: Vec<usize>)
        ensures
            as_ints(r@) == present_children(*self.graph, children@),
            forall|k: int| 0 <= k < r@.len() ==> r@[k] < self.graph.blocks@.len(),
    {
        let mut out: Vec<usize> = Vec::new();
        let mut i: usize = 0;
        while i < children.len()
            invariant
                i <= children@.len(),
                as_ints(out@) == present_children(*self.graph, children@.take(i as int)),
                forall|k: int| 0 <= k < out@.len() ==> out@[k] < self.graph.blocks@.len(),
            decreases children@.len() - i,
        {
            assert(children@.take(i + 1).drop_last() =~= children@.take(i as int));
            let ghost o0 = out@;
            match find_block(&self.graph.blocks, children[i]) {
                Some(j) => {
                    out.push(j);
                    assert(as_ints(out@) =~= as_ints(o0) + seq![j as int]);
                },
                None => {
                    assert(as_ints(out@) =~= as_ints(o0) + Seq::<int>::empty());
                },
            }
            i = i + 1;
        }
        assert(children@.take(children@.len() as int) =~= children@);
        out
    }

    fn insert_ordered(&self, s: Vec<usize>, x: usize) -> (r: Vec<usize>)
        requires
            x < self.graph.blocks@.len(),
            forall|k: int| 0 <= k < s@.len() ==> s@[k] < self.graph.blocks@.len(),
        ensures
            as_ints(r@) == insert_by_order(*self.graph, as_ints(s@), x as int),
            forall|k: int| 0 <= k < r@.len() ==> r@[k] < self.graph.blocks@.len(),
        decreases s@.len(),
    {
        let mut s = s;
        let ghost s0 = s@;
        if s.len() == 0 {
            let mut v: Vec<usize> = Vec::new();
            v.push(x);
            assert(as_ints(v@) =~= seq![x as int]);
            v
        } else {
            let last = s[s.len() - 1];
            assert(as_ints(s0).last() == last as int);
            if self.graph.blocks[last].order <= self.graph.blocks[x].order {
                s.push(x);
                assert(as_ints(s@) =~= as_ints(s0).push(x as int));
                s
            } else {
                let popped = s.pop();
                assert(as_ints(s@) =~= as_ints(s0).drop_last());
                let mut t = self.insert_ordered(s, x);
                let ghost t0 = t@;
                t.push(last);
                assert(as_ints(t@) =~= as_ints(t0).push(last as int));
                t
            }
        }
    }

    /// The positions of the children in the order they are rendered.
    fn ordered_child_blocks(&self, children: &Vec<usize>) -> (r: Vec<usize>)
        ensures
            as_ints(r@) == ordered_children(*self.graph, children@),
            forall|k: int| 0 <= k < r@.len() ==> r@[k] < self.graph.blocks@.len(),
    {
        let present = self.present_child_blocks(children);
        if !self.graph.block_explicit_ordering {
            return present;
        }
        let ghost p = as_ints(present@);
        let mut out: Vec<usize> = Vec::new();
        let mut i: usize = 0;
        while i < present.len()
            invariant
                i <= present@.len(),
                p == as_ints(present@),
                as_ints(out@) == sort_by_order(*self.graph, p.take(i as int)),
                forall|k: int| 0 <= k < present@.len() ==> present@[k] < self.graph.blocks@.len(),
                forall|k: int| 0 <= k < out@.len() ==> out@[k] < self.graph.blocks@.len(),
            decreases present@.len() - i,
        {
            assert(p.take(i + 1).drop_last() =~= p.take(i as int));
            assert(p.take(i + 1).last() == present@[i as int] as int);
            out = self.insert_ordered(out, present[i]);
            i = i + 1;
        }
        assert(p.take(present@.len() as int) =~= p);
        out
    }

    /// The parts of a block before its children.
    fn pre_builders(
        &self,
        blk: &Block,
        depth: usize,
        li: bool,
        wc: &str,
        lc: &str,
        wrapper: &str,
        ce: bool,
        line: StringBuilder,
    ) -> (r: Vec<StringBuilder>)
        ensures
            rendered_all(r@) == seq![piece(indent_text(depth as nat))] + (if li {
                seq![piece(li_open(blk.uid@, lc@))]
            } else {
                Seq::empty()
            }) + (if wrapper@.len() != 0 {
                seq![piece(opening_tag(wrapper@, wc@))]
            } else {
                Seq::empty()
            }) + (if ce {
                seq![piece(content_open(blk.uid@, opt_text(blk.content_element)))]
            } else {
                Seq::empty()
            }) + seq![rendered(line)] + (if ce {
                seq![piece(content_close(opt_text(blk.content_element)))]
            } else {
                Seq::empty()
            }),
    {
        let ghost rl = rendered(line);
        let mut out: Vec<StringBuilder> = Vec::new();
        push_part(&mut out, StringBuilder::leaf(write_depth(depth)));
        let ghost a = rendered_all(out@);
        if li {
            push_part(&mut out, StringBuilder::leaf(li_opening(blk.uid.as_str(), lc)));
        }
        let ghost b = rendered_all(out@);
        if !wrapper.is_empty() {
            push_part(&mut out, StringBuilder::leaf(render_opening_tag(wrapper, wc)));
        }
        let ghost c = rendered_all(out@);
        if ce {
            push_part(&mut out, StringBuilder::leaf(content_opening(blk.uid.as_str(), &blk.content_element)));
        }
        let ghost d = rendered_all(out@);
        push_part(&mut out, line);
        let ghost e = rendered_all(out@);
        if ce {
            push_part(&mut out, StringBuilder::leaf(content_closing(&blk.content_element)));
        }
        assert(rendered_all(out@) =~= seq![piece(indent_text(depth as nat))] + (if li {
            seq![piece(li_open(blk.uid@, lc@))]
        } else {
            Seq::empty()
        }) + (if wrapper@.len() != 0 {
            seq![piece(opening_tag(wrapper@, wc@))]
        } else {
            Seq::empty()
        }) + (if ce {
            seq![piece(content_open(blk.uid@, opt_text(blk.content_element)))]
        } else {
            Seq::empty()
        }) + seq![rl] + (if ce {
            seq![piece(content_close(opt_text(blk.content_element)))]
        } else {
            Seq::empty()
        }));
        out
    }
}

/// The budget a page is rendered with (see `render_budget`).
pub fn page_render_budget(blocks: usize) -> (r: u64)
    ensures
        r == render_budget(blocks as nat),
{
    let n = blocks as u64;
    if n < 0x1000_0000_0000_0000 {
        8 * n + 8
    } else {
        u64::MAX
    }
}

impl<'a> Page<'a> {
    /// What an expression renders to, whether it must be rendered, and whether the block's
    /// children are rendered; `latest` keeps the latest edit time of the blocks rendered.
    #[verifier::spinoff_prover]
    #[verifier::rlimit(60)]
    pub fn render_expression(
        &self,
        blk: &Block,
        e: &Expression,
        first: bool,
        omit_unexported_links: bool,
        budget: u64,
        latest: &mut u64,
    ) -> (r: Result<(StringBuilder, bool, bool), RenderError>)
        ensures
            expr_out_matches(
                r,
                expr_spec(self.ctx(), *blk, expr_model(*e), first, omit_unexported_links, budget, *old(latest)),
                *final(latest),
            ),
        decreases budget, esize(expr_model(*e)), 0int,
    {
        let ghost l0 = *latest;
        let ghost x = self.ctx();
        proof {
            lemma_expr_model_of(*e);
        }
        match e {
            Expression::Hashtag(s, dot) => Ok((self.hashtag(s.as_str(), *dot, omit_unexported_links), true, true)),
            Expression::RawHtml(s) => Ok((StringBuilder::leaf(s.clone()), true, true)),
            Expression::Image { alt, url } => match self.render_image(url.as_str(), alt.as_str()) {
                Ok(sb) => Ok((sb, true, true)),
                Err(er) => Err(er),
            },
            Expression::Video { url } => Ok((self.render_video(url.as_str()), true, true)),
            Expression::Todo { done } => {
                let mut out = "<input type=\"checkbox\" disabled ".to_owned();
                if *done {
                    out.append("checked");
                } else {
                    out.append("");
                }
                out.append(" />");
                Ok((StringBuilder::leaf(out), false, true))
            },
            Expression::Link(s) => Ok((self.link_if_allowed(s.as_str(), omit_unexported_links), true, true)),
            Expression::MarkdownInternalLink { label, page } => Ok(
                (self.link_if_allowed_with_label(page.as_str(), Some(label.as_str()), false), true, true),
            ),
            Expression::MarkdownExternalLink { title, url } => {
                let mut out = "<a href=\"".to_owned();
                out.append(escape(url.as_str()).as_str());
                out.append("\">");
                out.append(self.render_text(title.as_str()).as_str());
                out.append("</a>");
                Ok((StringBuilder::leaf(out), true, true))
            },
            Expression::RawHyperlink(h) => {
                let eh = escape(h.as_str());
                let mut out = "<a href=\"".to_owned();
                out.append(eh.as_str());
                out.append("\">");
                out.append(eh.as_str());
                out.append("</a>");
                Ok((StringBuilder::leaf(out), true, true))
            },
            Expression::SingleBacktick(s) => {
                let mut out = "<code>".to_owned();
                out.append(escape(s.as_str()).as_str());
                out.append("</code>");
                Ok((StringBuilder::leaf(out), true, true))
            },
            Expression::TripleBacktick(s) => match self.highlighter.highlight(s.as_str()) {
                Ok(h) => {
                    let mut out = "<pre><code>".to_owned();
                    out.append(h.as_str());
                    out.append("</code></pre>");
                    Ok((StringBuilder::leaf(out), true, true))
                },
                Err(e) => Err(e),
            },
            Expression::Bold(v) => {
                let r = self.render_expressions(blk, v, false, false, budget, latest);
                wrap_style(
                    "strong",
                    self.config.class_bold.as_str(),
                    r,
                    Ghost(exprs_spec(x, *blk, exprs_model(v@), false, false, budget, l0)),
                    Ghost(*latest),
                )
            },
            Expression::Italic(v) => {
                let r = self.render_expressions(blk, v, false, false, budget, latest);
                wrap_style(
                    "em",
                    self.config.class_italic.as_str(),
                    r,
                    Ghost(exprs_spec(x, *blk, exprs_model(v@), false, false, budget, l0)),
                    Ghost(*latest),
                )
            },
            Expression::Strike(v) => {
                let r = self.render_expressions(blk, v, false, false, budget, latest);
                wrap_style(
                    "del",
                    self.config.class_strikethrough.as_str(),
                    r,
                    Ghost(exprs_spec(x, *blk, exprs_model(v@), false, false, budget, l0)),
                    Ghost(*latest),
                )
            },
            Expression::Highlight(v) => {
                let r = self.render_expressions(blk, v, false, false, budget, latest);
                wrap_style(
                    "span",
                    self.config.class_highlight.as_str(),
                    r,
                    Ghost(exprs_spec(x, *blk, exprs_model(v@), false, false, budget, l0)),
                    Ghost(*latest),
                )
            },
            Expression::Latex(s) => match katex_render(s.as_str()) {
                Some(h) => Ok((StringBuilder::leaf(h), true, true)),
                None => Err(RenderError::Latex),
            },
            Expression::BlockQuote(v) => {
                let r = self.render_expressions(blk, v, false, false, budget, latest);
                wrap_style(
                    "blockquote",
                    self.config.class_blockquote.as_str(),
                    r,
                    Ghost(exprs_spec(x, *blk, exprs_model(v@), false, false, budget, l0)),
                    Ghost(*latest),
                )
            },
            Expression::Text(s) => Ok((StringBuilder::leaf(self.render_text(s.as_str())), true, true)),
            Expression::BlockRef(s) => self.render_block_ref(blk, s.as_str(), first, budget, latest),
            Expression::BraceDirective(s) => {
                let sv = to_chars(s.as_str());
                if chars_equal(&sv, "table") {
                    match self.render_table(blk, budget, latest) {
                        Ok(t) => Ok((t, true, false)),
                        Err(er) => Err(er),
                    }
                } else if text_starts_with(s.as_str(), "query:") || text_starts_with(s.as_str(), "renderer ") {
                    Ok((StringBuilder::Empty, true, true))
                } else {
                    let mut out = "<pre>".to_owned();
                    out.append(escape(s.as_str()).as_str());
                    out.append("</pre>");
                    Ok((StringBuilder::leaf(out), true, true))
                }
            },
            Expression::Table => match self.render_table(blk, budget, latest) {
                Ok(t) => Ok((t, true, false)),
                Err(er) => Err(er),
            },
            Expression::HRule => {
                if self.config.class_hr.as_str().is_empty() {
                    Ok((text("<hr />"), true, true))
                } else {
                    let mut out = "<hr class=\"".to_owned();
                    out.append(self.config.class_hr.as_str());
                    out.append("\" />");
                    Ok((StringBuilder::leaf(out), true, true))
                }
            },
            Expression::BlockEmbed(s) => match self.render_block_embed(s.as_str(), budget, latest) {
                Ok(r) => Ok((r, true, true)),
                Err(er) => Err(er),
            },
            Expression::PageEmbed(s) => match self.render_page_embed(s.as_str(), budget, latest) {
                Ok(r) => Ok((r, true, true)),
                Err(er) => Err(er),
            },
            Expression::Attribute { name, value } => {
                if contains_name(&self.tables.omitted_attributes, name.as_str()) {
                    Ok((StringBuilder::Empty, false, true))
                } else {
                    let r = self.render_expressions(blk, value, false, false, budget, latest);
                    self.wrap_attribute(
                        name.as_str(),
                        first,
                        r,
                        Ghost(exprs_spec(x, *blk, exprs_model(value@), false, false, budget, l0)),
                        Ghost(*latest),
                    )
                }
            },
        }
    }

    /// A list of expressions: their outputs together if any must be rendered and is not blank,
    /// else nothing; and whether the block's children are rendered.
    pub fn render_expressions(
        &self,
        blk: &Block,
        es: &Vec<Expression>,
        first: bool,
        omit_unexported_links: bool,
        budget: u64,
        latest: &mut u64,
    ) -> (r: Result<(StringBuilder, bool), RenderError>)
        ensures
            line_out_matches(
                r,
                exprs_spec(self.ctx(), *blk, exprs_model(es@), first, omit_unexported_links, budget, *old(latest)),
                *final(latest),
            ),
        decreases budget, esizes(exprs_model(es@)), es@.len() + 2,
    {
        let ghost x = self.ctx();
        let ghost m = exprs_model(es@);
        let ghost l0 = *latest;
        proof {
            lemma_exprs_model_len(es@);
        }
        let mut parts: Vec<StringBuilder> = Vec::new();
        let mut should = false;
        let mut rc = true;
        let mut i: usize = 0;
        assert(rendered_all(parts@) =~= Seq::<Rendered>::empty());
        while i < es.len()
            invariant
                l0 == *old(latest),
                i <= es@.len(),
                m.len() == es@.len(),
                m == exprs_model(es@),
                x == self.ctx(),
                exprs_loop(x, *blk, m, i as int, first, omit_unexported_links, budget, *latest, rendered_all(parts@), should, rc)
                    == exprs_loop(x, *blk, m, 0, first, omit_unexported_links, budget, l0, Seq::empty(), false, true),
            decreases es@.len() - i,
        {
            proof {
                lemma_exprs_model_index(es@, i as int);
                lemma_esize_within(m, i as int);
            }
            let r = self.render_expression(blk, &es[i], first && i == 0, omit_unexported_links, budget, latest);
            assert(expr_model(es@[i as int]) == m[i as int]);
            match r {
                Err(e) => {
                    return Err(e);
                },
                Ok((sb, must, rc2)) => {
                    let nb = sb.is_blank();
                    should = should || (!nb && must);
                    rc = rc && rc2;
                    push_part(&mut parts, sb);
                },
            }
            i = i + 1;
        }
        if should {
            Ok((StringBuilder::group_of(parts), rc))
        } else {
            Ok((StringBuilder::Empty, rc))
        }
    }

    /// A block's line without its heading element.
    pub fn render_line_without_header(&self, blk: &Block, budget: u64, latest: &mut u64) -> (r: Result<
        (StringBuilder, bool),
        RenderError,
    >)
        ensures
            line_out_matches(r, line_wo_header_spec(self.ctx(), *blk, budget, *old(latest)), *final(latest)),
        decreases budget, esizes(blk.contents.model()), blk.contents.model().len() + 3,
    {
        proof {
            lemma_exprs_model_len(blk.contents.parsed@);
        }
        let filter = self.config.filter_link_only_blocks && is_link_only(&blk.contents.parsed);
        self.render_expressions(blk, &blk.contents.parsed, true, filter, budget, latest)
    }

    /// A block's line, in its heading element if it is a heading.
    pub fn render_line(&self, blk: &Block, budget: u64, latest: &mut u64) -> (r: Result<(StringBuilder, bool), RenderError>)
        ensures
            line_out_matches(r, line_spec(self.ctx(), *blk, budget, *old(latest)), *final(latest)),
        decreases budget, esizes(blk.contents.model()), blk.contents.model().len() + 4,
    {
        let ghost l0 = *latest;
        let r = self.render_line_without_header(blk, budget, latest);
        self.wrap_heading(
            blk,
            r,
            Ghost(line_wo_header_spec(self.ctx(), *blk, budget, l0)),
            Ghost(*latest),
        )
    }

    /// A block reference: the referenced block's line, linked to it when its page is exported;
    /// or, when no block has the uid, the reference's text rendered as content.
    pub fn render_block_ref(&self, blk: &Block, s: &str, first: bool, budget: u64, latest: &mut u64) -> (r: Result<
        (StringBuilder, bool, bool),
        RenderError,
    >)
        ensures
            expr_out_matches(r, block_ref_spec(self.ctx(), *blk, s@, first, budget, *old(latest)), *final(latest)),
        decreases budget, 0nat, 0int,
    {
        match find_block_by_uid(&self.graph.blocks, s) {
            Some(j) => {
                if budget == 0 {
                    return Err(RenderError::TooDeep);
                }
                let rb = &self.graph.blocks[j];
                match self.render_line_without_header(rb, budget - 1, latest) {
                    Err(e) => Err(e),
                    Ok((result, _)) => match page_by_id(&self.tables.pages_by_id, rb.containing_page) {
                        Some(p) => {
                            if p.included {
                                let mut open = "<a class=\"block-ref\" href=\"".to_owned();
                                open.append(p.slug.as_str());
                                open.append("#");
                                open.append(rb.uid.as_str());
                                open.append("\">");
                                let g = group3(StringBuilder::leaf(open), result, text("</a>"));
                                Ok((g, true, true))
                            } else {
                                Ok((result, true, true))
                            }
                        },
                        None => Ok((result, true, true)),
                    },
                }
            },
            None => match try_parse(self.graph.content_style, s) {
                None => Err(RenderError::Parse),
                Some(m) => {
                    if budget == 0 {
                        return Err(RenderError::TooDeep);
                    }
                    match self.render_expressions(blk, &m, first, false, budget - 1, latest) {
                        Ok((r, rc)) => Ok((r, true, rc)),
                        Err(e) => Err(e),
                    }
                },
            },
        }
    }

    /// A table made of a block's children: one row per path from a child down to a block
    /// without children.
    pub fn render_table(&self, blk: &Block, budget: u64, latest: &mut u64) -> (r: Result<StringBuilder, RenderError>)
        ensures
            block_out_matches(r, table_spec(self.ctx(), *blk, budget, *old(latest)), *final(latest)),
        decreases budget, 0nat, blk.children@.len() + 2,
    {
        let ghost x = self.ctx();
        let ghost l0 = *latest;
        let ghost ch = blk.children@;
        let mut rows: Vec<Vec<StringBuilder>> = Vec::new();
        let mut i: usize = 0;
        assert(rows_rendered(rows@) =~= Seq::<Seq<Rendered>>::empty());
        #[verifier::loop_isolation(false)]
        while i < blk.children.len()
            invariant
                x == self.ctx(),
                ch == blk.children@,
                i <= ch.len(),
                table_rows(x, ch, i as int, budget, *latest, rows_rendered(rows@)) == table_rows(x, ch, 0, budget, l0, Seq::empty()),
            decreases ch.len() - i,
        {
            let empty: Vec<StringBuilder> = Vec::new();
            assert(rendered_all(empty@) =~= Seq::<Rendered>::empty());
            match self.descend(&empty, blk.children[i], budget, latest) {
                Err(e) => {
                    return Err(e);
                },
                Ok(more) => {
                    append_rows(&mut rows, more);
                },
            }
            i = i + 1;
        }
        Ok(table_builder(rows))
    }

    /// The rows under a table cell.
    fn descend(&self, row: &Vec<StringBuilder>, id: usize, budget: u64, latest: &mut u64) -> (r: Result<
        Vec<Vec<StringBuilder>>,
        RenderError,
    >)
        ensures
            rows_out_matches(r, descend_spec(self.ctx(), rendered_all(row@), id, budget, *old(latest)), *final(latest)),
        decreases budget, 0nat, 0int,
    {
        let ghost x = self.ctx();
        match find_block(&self.graph.blocks, id) {
            None => {
                let mut v: Vec<Vec<StringBuilder>> = Vec::new();
                let c = copy_row(row);
                let ghost rc = rendered_all(c@);
                v.push(c);
                assert(rows_rendered(v@) =~= seq![rc]);
                Ok(v)
            },
            Some(j) => {
                if budget == 0 {
                    return Err(RenderError::TooDeep);
                }
                let b = budget - 1;
                let cb = &self.graph.blocks[j];
                match self.render_line_without_header(cb, b, latest) {
                    Err(e) => Err(e),
                    Ok((cell, _)) => {
                        let mut row2 = copy_row(row);
                        push_part(&mut row2, cell);
                        let ghost r2 = rendered_all(row2@);
                        if cb.children.len() == 0 {
                            let mut v: Vec<Vec<StringBuilder>> = Vec::new();
                            v.push(row2);
                            assert(rows_rendered(v@) =~= seq![r2]);
                            Ok(v)
                        } else {
                            let ghost l1 = *latest;
                            let ghost ch = cb.children@;
                            let mut acc: Vec<Vec<StringBuilder>> = Vec::new();
                            let mut i: usize = 0;
                            assert(rows_rendered(acc@) =~= Seq::<Seq<Rendered>>::empty());
                            #[verifier::loop_isolation(false)]
                            while i < cb.children.len()
                                invariant
                                    x == self.ctx(),
                                    ch == cb.children@,
                                    i <= ch.len(),
                                    r2 == rendered_all(row2@),
                                    b < budget,
                                    descend_children(x, r2, ch, i as int, b, *latest, rows_rendered(acc@))
                                        == descend_children(x, r2, ch, 0, b, l1, Seq::empty()),
                                decreases ch.len() - i,
                            {
                                match self.descend(&row2, cb.children[i], b, latest) {
                                    Err(e) => {
                                        return Err(e);
                                    },
                                    Ok(more) => {
                                        append_rows(&mut acc, more);
                                    },
                                }
                                i = i + 1;
                            }
                            Ok(acc)
                        }
                    },
                }
            },
        }
    }

    /// An embedded block with its children, in a `div`.
    #[verifier::spinoff_prover]
    #[verifier::rlimit(60)]
    pub fn render_block_embed(&self, s: &str, budget: u64, latest: &mut u64) -> (r: Result<StringBuilder, RenderError>)
        ensures
            block_out_matches(r, block_embed_spec(self.ctx(), s@, budget, *old(latest)), *final(latest)),
        decreases budget, 0nat, 0int,
    {
        match find_block_by_uid(&self.graph.blocks, s) {
            None => Ok(StringBuilder::Empty),
            Some(j) => {
                if budget == 0 {
                    return Err(RenderError::TooDeep);
                }
                match self.render_block_and_children(&self.graph.blocks[j], ViewType::default_view_type(), 0, budget - 1, latest) {
                    Ok(r) => Ok(
                        group3(
                            StringBuilder::leaf(render_opening_tag("div", self.config.class_block_embed.as_str())),
                            r,
                            text("</div>"),
                        ),
                    ),
                    Err(e) => Err(e),
                }
            },
        }
    }

    /// An embedded page, when it may be embedded: its title and its blocks.
    #[verifier::spinoff_prover]
    #[verifier::rlimit(100)]
    pub fn render_page_embed(&self, s: &str, budget: u64, latest: &mut u64) -> (r: Result<StringBuilder, RenderError>)
        ensures
            block_out_matches(r, page_embed_spec(self.ctx(), s@, budget, *old(latest)), *final(latest)),
        decreases budget, 0nat, 0int,
    {
        match lookup_page(self.tables, s) {
            Some(pg) => {
                if pg.allow_embed {
                    match find_block(&self.graph.blocks, pg.id) {
                        None => Err(RenderError::MissingBlock),
                        Some(j) => if budget == 0 {
                            Err(RenderError::TooDeep)
                        } else {
                            match self.render_block_and_children(&self.graph.blocks[j], ViewType::default_view_type(), 0, budget - 1, latest) {
                                Ok(emb) => {
                                    let ghost re = rendered(emb);
                                    let mut parts: Vec<StringBuilder> = Vec::new();
                                    push_part(&mut parts, StringBuilder::leaf(render_opening_tag("div", self.config.class_page_embed_container.as_str())));
                                    push_part(&mut parts, StringBuilder::leaf(render_opening_tag("div", self.config.class_page_embed_title.as_str())));
                                    push_part(&mut parts, text(s));
                                    push_part(&mut parts, text("</div>"));
                                    push_part(&mut parts, StringBuilder::leaf(render_opening_tag("div", self.config.class_page_embed_content.as_str())));
                                    push_part(&mut parts, emb);
                                    push_part(&mut parts, text("</div>\n</div>"));
                                    assert(rendered_all(parts@) =~= seq![
                                        piece(opening_tag("div"@, self.config.class_page_embed_container@)),
                                        piece(opening_tag("div"@, self.config.class_page_embed_title@)),
                                        piece(s@),
                                        piece("</div>"@),
                                        piece(opening_tag("div"@, self.config.class_page_embed_content@)),
                                        re,
                                        piece("</div>\n</div>"@),
                                    ]);
                                    Ok(StringBuilder::group_of(parts))
                                },
                                Err(e) => Err(e),
                            }
                        },
                    }
                } else {
                    Ok(StringBuilder::Empty)
                }
            },
            None => Ok(StringBuilder::Empty),
        }
    }

    /// The children of a block, rendered in turn; and whether any of them is not blank.
    fn render_children(&self, kids: &Vec<usize>, view: ViewType, child_depth: usize, budget: u64, latest: &mut u64) -> (r: Result<
        (Vec<StringBuilder>, bool),
        RenderError,
    >)
        requires
            view != ViewType::Inherit,
            forall|k: int| 0 <= k < kids@.len() ==> kids@[k] < self.graph.blocks@.len(),
        ensures
            match children_loop(self.ctx(), as_ints(kids@), 0, view, child_depth, budget, *old(latest), Seq::empty(), false) {
                Ok((parts, had, l)) => r matches Ok((v, h)) && rendered_all(v@) == parts && h == had && *final(latest) == l,
                Err(e) => r == Err::<(Vec<StringBuilder>, bool), RenderError>(e),
            },
        decreases budget, 0nat, 1int,
    {
        let ghost x = self.ctx();
        let ghost kk = as_ints(kids@);
        let ghost l0 = *latest;
        let mut kid_parts: Vec<StringBuilder> = Vec::new();
        let mut had = false;
        let mut i: usize = 0;
        assert(rendered_all(kid_parts@) =~= Seq::<Rendered>::empty());
        while i < kids.len()
            invariant
                x == self.ctx(),
                kk == as_ints(kids@),
                l0 == *old(latest),
                i <= kids@.len(),
                view != ViewType::Inherit,
                forall|k: int| 0 <= k < kids@.len() ==> kids@[k] < self.graph.blocks@.len(),
                children_loop(x, kk, i as int, view, child_depth, budget, *latest, rendered_all(kid_parts@), had)
                    == children_loop(x, kk, 0, view, child_depth, budget, l0, Seq::empty(), false),
            decreases kids@.len() - i,
        {
            assert(kk[i as int] == kids@[i as int] as int);
            if budget == 0 {
                return Err(RenderError::TooDeep);
            }
            let c = self.render_block_and_children(&self.graph.blocks[kids[i]], view, child_depth, budget - 1, latest);
            match c {
                Err(e) => {
                    return Err(e);
                },
                Ok(c) => {
                    had = had || !c.is_blank();
                    push_part(&mut kid_parts, c);
                },
            }
            i = i + 1;
        }
        Ok((kid_parts, had))
    }

    /// A block and its children, as list items, document paragraphs or headings.
    #[verifier::spinoff_prover]
    #[verifier::rlimit(100)]
    pub fn render_block_and_children(
        &self,
        blk: &Block,
        inherited_view_type: ViewType,
        depth: usize,
        budget: u64,
        latest: &mut u64,
    ) -> (r: Result<StringBuilder, RenderError>)
        requires
            blk.include_type == BlockInclude::Exclude || inherited_view_type != ViewType::Inherit
                || blk.view_type != ViewType::Inherit,
        ensures
            block_out_matches(r, block_spec(self.ctx(), *blk, inherited_view_type, depth, budget, *old(latest)), *final(latest)),
        decreases budget, esizes(blk.contents.model()) + 1, 0int,
    {
        if blk.include_type == BlockInclude::Exclude {
            return Ok(StringBuilder::Empty);
        }
        if depth >= usize::MAX - 2 {
            return Err(RenderError::TooDeep);
        }
        let ghost x = self.ctx();
        let ghost l0 = *latest;
        let (line, rc0) = if blk.include_type == BlockInclude::OnlyChildren {
            (StringBuilder::Empty, true)
        } else {
            match self.render_line(blk, budget, latest) {
                Ok(p) => p,
                Err(e) => {
                    return Err(e);
                },
            }
        };
        self.finish_block(blk, inherited_view_type, depth, budget, line, rc0, latest)
    }

    /// A block and its children, once its line is rendered (see `block_after_line`).
    #[verifier::spinoff_prover]
    #[verifier::rlimit(100)]
    fn finish_block(
        &self,
        blk: &Block,
        inherited_view_type: ViewType,
        depth: usize,
        b: u64,
        line: StringBuilder,
        rc0: bool,
        latest: &mut u64,
    ) -> (r: Result<StringBuilder, RenderError>)
        requires
            inherited_view_type != ViewType::Inherit || blk.view_type != ViewType::Inherit,
            depth < usize::MAX - 2,
        ensures
            block_out_matches(
                r,
                block_after_line(self.ctx(), *blk, inherited_view_type, depth, b, rendered(line), rc0, *old(latest)),
                *final(latest),
            ),
        decreases b, 0nat, 4int,
    {
        let ghost x = self.ctx();
        let ghost l1 = *latest;
        let li_ok = blk.include_type != BlockInclude::OnlyChildren;
        let container = blk.include_type == BlockInclude::AndChildren || blk.include_type
            == BlockInclude::IfChildrenPresent;
        let rc = blk.include_type != BlockInclude::JustBlock && rc0;
        let render_children = rc && blk.children.len() != 0;
        let numbered = container && self.has_numbered_list_child(&blk.children);
        let view = blk.view_type.resolve_with_parent(inherited_view_type);
        proof {
            lemma_resolve_inherits_only_from_inherit(blk.view_type, inherited_view_type);
        }
        if blk.edit_time > *latest {
            *latest = blk.edit_time;
        }
        let ghost l2 = *latest;
        if line.is_blank() && !render_children {
            return Ok(StringBuilder::Empty);
        }
        self.block_parts(blk, inherited_view_type, depth, b, line, render_children, container, numbered, view, latest)
    }

    /// A block that is rendered (see `block_parts`).
    #[verifier::spinoff_prover]
    #[verifier::rlimit(100)]
    fn block_parts(
        &self,
        blk: &Block,
        inherited_view_type: ViewType,
        depth: usize,
        b: u64,
        line: StringBuilder,
        render_children: bool,
        container: bool,
        numbered: bool,
        view: ViewType,
        latest: &mut u64,
    ) -> (r: Result<StringBuilder, RenderError>)
        requires
            view != ViewType::Inherit,
            depth < usize::MAX - 2,
        ensures
            block_out_matches(
                r,
                block_parts(
                    self.ctx(),
                    *blk,
                    inherited_view_type,
                    depth,
                    b,
                    rendered(line),
                    render_children,
                    child_container(container, numbered, view),
                    view,
                    *old(latest),
                ),
                *final(latest),
            ),
        decreases b, 0nat, 3int,
    {
        let ghost x = self.ctx();
        let li_ok = blk.include_type != BlockInclude::OnlyChildren;
        let cc = child_container_tags(container, numbered, view);
        let (li, wc, lc, wrapper, ce) = block_layout(blk, inherited_view_type, depth, li_ok, view, &line);
        let ghost rl = rendered(line);
        let mut parts = self.pre_builders(blk, depth, li, wc.as_str(), lc.as_str(), wrapper.as_str(), ce, line);
        let ghost pre = rendered_all(parts@);
        assert(pre == pre_parts(x, *blk, inherited_view_type, depth, rl, li_ok, view)) by {
            reveal(pre_parts);
        }
        let (cc_depth, child_depth) = if li_ok {
            (depth + 1, depth + 2)
        } else {
            (depth, depth)
        };
        let ghost ccs = child_container(container, numbered, view);
        let ghost l2 = *latest;
        let (section, had) = match self.children_part(blk, render_children, cc, Ghost(ccs), cc_depth, view, child_depth, b, latest) {
            Ok(p) => p,
            Err(e) => {
                return Err(e);
            },
        };
        if blk.include_type == BlockInclude::IfChildrenPresent && !had {
            return Ok(StringBuilder::Empty);
        }
        let ghost sec = rendered_all(section@);
        append_parts(&mut parts, section);
        let post = post_builders(blk, depth, li, render_children, wrapper.as_str());
        append_parts(&mut parts, post);
        assert(rendered_all(parts@) == pre + sec + post_parts(*blk, depth, li, render_children, wrapper_of(*blk, extra_places(*blk, li).0)));
        Ok(StringBuilder::group_of(parts))
    }

    /// The children section of a block: a newline, the opening of the children's list element,
    /// the children and the list element's closing; and whether any child is not blank.
    fn children_part(
        &self,
        blk: &Block,
        render_children: bool,
        cc: Option<(&'static str, &'static str)>,
        Ghost(ccs): Ghost<Option<(Seq<char>, Seq<char>)>>,
        cc_depth: usize,
        view: ViewType,
        child_depth: usize,
        b: u64,
        latest: &mut u64,
    ) -> (r: Result<(Vec<StringBuilder>, bool), RenderError>)
        requires
            view != ViewType::Inherit,
            match ccs {
                Some((a, c)) => cc matches Some((p, q)) && p@ == a && q@ == c,
                None => cc is None,
            },
        ensures
            match (if render_children {
                children_loop(self.ctx(), ordered_children(*self.graph, blk.children@), 0, view, child_depth, b, *old(latest), Seq::empty(), false)
            } else {
                Ok((Seq::empty(), false, *old(latest)))
            }) {
                Ok((kp, had, l3)) => r matches Ok((v, h)) && rendered_all(v@) == children_section(ccs, cc_depth, render_children, kp) && h == had && *final(latest) == l3,
                Err(e) => r == Err::<(Vec<StringBuilder>, bool), RenderError>(e),
            },
        decreases b, 0nat, 2int,
    {
        let mut parts: Vec<StringBuilder> = Vec::new();
        if !render_children {
            assert(rendered_all(parts@) =~= children_section(ccs, cc_depth, render_children, Seq::empty())) by {
                reveal(children_section);
            }
            return Ok((parts, false));
        }
        push_part(&mut parts, text("\n"));
        match cc {
            Some((start, _)) => {
                push_part(&mut parts, StringBuilder::leaf(write_depth(cc_depth)));
                push_part(&mut parts, text(start));
            },
            None => {},
        }
        let ghost head = rendered_all(parts@);
        assert(head =~= seq![piece("\n"@)] + match ccs {
            Some((start, _)) => seq![piece(indent_text(cc_depth as nat)), piece(start)],
            None => Seq::<Rendered>::empty(),
        });
        let kids = self.ordered_child_blocks(&blk.children);
        let (kid_parts, had) = match self.render_children(&kids, view, child_depth, b, latest) {
            Ok(p) => p,
            Err(e) => {
                return Err(e);
            },
        };
        let ghost kid_rs = rendered_all(kid_parts@);
        append_parts(&mut parts, kid_parts);
        let ghost body = rendered_all(parts@);
        match cc {
            Some((_, end)) => {
                push_part(&mut parts, StringBuilder::leaf(write_depth(cc_depth)));
                push_part(&mut parts, text(end));
            },
            None => {},
        }
        assert(rendered_all(parts@) =~= body + match ccs {
            Some((_, end)) => seq![piece(indent_text(cc_depth as nat)), piece(end)],
            None => Seq::<Rendered>::empty(),
        });
        assert(rendered_all(parts@) =~= children_section(ccs, cc_depth, render_children, kid_rs)) by {
            reveal(children_section);
        }
        Ok((parts, had))
    }

    /// The page's HTML, and the latest edit time of the blocks rendered (0 if none).
    pub fn render(&self) -> (r: Result<(String, u64), RenderError>)
        requires
            block_by_id(self.graph.blocks@, self.id) is Some,
        ensures
            match block_spec(
                self.ctx(),
                self.graph.blocks@[block_by_id(self.graph.blocks@, self.id)->0],
                ViewType::Bullet,
                0,
                render_budget(self.graph.blocks@.len()),
                0,
            ) {
                Ok((t, l)) => r matches Ok((s, l2)) && s@ == t.text && l2 == l,
                Err(e) => r == Err::<(String, u64), RenderError>(e),
            },
    {
        let j = find_block(&self.graph.blocks, self.id).unwrap();
        let mut latest: u64 = 0;
        let budget = page_render_budget(self.graph.blocks.len());
        match self.render_block_and_children(&self.graph.blocks[j], ViewType::default_view_type(), 0, budget, &mut latest) {
            Ok(sb) => Ok((sb.build(), latest)),
            Err(e) => Err(e),
        }
    }
}

} // verus!
