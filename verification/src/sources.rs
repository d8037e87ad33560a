//! The images of expressions: what an outside service turns into `<picture>` elements before
//! the pages are rendered.
use vstd::prelude::*;

use crate::parse_string::Expression;

verus! {

/// The URL and alt text of images, in the order they appear.
#[derive(Debug)]
pub struct ExternalSources {
    pub images: Vec<(String, String)>,
}

pub type SourcesModel = Seq<(Seq<char>, Seq<char>)>;

pub open spec fn url_alt_texts(s: Seq<(String, String)>) -> Seq<(Seq<char>, Seq<char>)> {
    s.map_values(|p: (String, String)| (p.0@, p.1@))
}

pub open spec fn sources_view(s: ExternalSources) -> SourcesModel {
    url_alt_texts(s.images@)
}

pub open spec fn sources_cat(a: SourcesModel, b: SourcesModel) -> SourcesModel {
    a + b
}

pub open spec fn no_sources() -> SourcesModel {
    Seq::empty()
}

/// The image that an expression itself is.
pub open spec fn own_sources(e: Expression) -> SourcesModel {
    match e {
        Expression::Image { alt, url } => seq![(url@, alt@)],
        _ => no_sources(),
    }
}

/// The images of an expression: its own, then those nested in it.
pub open spec fn expr_sources(e: Expression) -> SourcesModel
    decreases e,
{
    let inner = match e {
        Expression::Bold(v) => exprs_sources(v@),
        Expression::Italic(v) => exprs_sources(v@),
        Expression::Strike(v) => exprs_sources(v@),
        Expression::Highlight(v) => exprs_sources(v@),
        Expression::BlockQuote(v) => exprs_sources(v@),
        Expression::Attribute { value, .. } => exprs_sources(value@),
        _ => no_sources(),
    };
    sources_cat(own_sources(e), inner)
}

/// The images of a list of expressions, in order.
pub open spec fn exprs_sources(s: Seq<Expression>) -> SourcesModel
    decreases s,
{
    if s.len() == 0 {
        no_sources()
    } else {
        sources_cat(exprs_sources(s.subrange(0, s.len() - 1)), expr_sources(s[s.len() - 1]))
    }
}

fn collect_expression(sources: &mut ExternalSources, e: &Expression)
    ensures
        sources_view(*final(sources)) == sources_cat(sources_view(*old(sources)), expr_sources(*e)),
    decreases e, 0int,
{
    let ghost c0 = sources_view(*sources);
    match e {
        Expression::Image { alt, url } => {
            sources.images.push((url.clone(), alt.clone()));
            assert(url_alt_texts(sources.images@) =~= c0.push((url@, alt@)));
        },
        _ => {},
    }
    assert(sources_view(*sources) =~= sources_cat(c0, own_sources(*e)));
    let ghost c1 = sources_view(*sources);
    match e {
        Expression::Bold(v) => collect_list(sources, v),
        Expression::Italic(v) => collect_list(sources, v),
        Expression::Strike(v) => collect_list(sources, v),
        Expression::Highlight(v) => collect_list(sources, v),
        Expression::BlockQuote(v) => collect_list(sources, v),
        Expression::Attribute { value, .. } => collect_list(sources, value),
        _ => {
            assert(sources_view(*sources) =~= sources_cat(c1, no_sources()));
        },
    }
    assert(sources_view(*sources) =~= sources_cat(sources_view(*old(sources)), expr_sources(*e)));
}

fn collect_list(sources: &mut ExternalSources, v: &Vec<Expression>)
    ensures
        sources_view(*final(sources)) == sources_cat(sources_view(*old(sources)), exprs_sources(v@)),
    decreases v, 1int,
{
    let ghost c0 = sources_view(*sources);
    let mut i: usize = 0;
    assert(v@.subrange(0, 0) =~= Seq::<Expression>::empty());
    assert(sources_cat(c0, exprs_sources(v@.subrange(0, 0))) =~= c0);
    while i < v.len()
        invariant
            i <= v@.len(),
            sources_view(*sources) == sources_cat(c0, exprs_sources(v@.subrange(0, i as int))),
        decreases v@.len() - i,
    {
        proof {
            assert(decreases_to!(v => v@));
            assert(decreases_to!(v@ => v@[i as int]));
        }
        collect_expression(sources, &v[i]);
        assert(v@.subrange(0, i + 1).subrange(0, i as int) =~= v@.subrange(0, i as int));
        assert(v@.subrange(0, i + 1)[i as int] == v@[i as int]);
        assert(sources_view(*sources) =~= sources_cat(c0, exprs_sources(v@.subrange(0, i + 1))));
        i = i + 1;
    }
    assert(v@.subrange(0, v@.len() as int) =~= v@);
}

/// Add the images of `expressions`, in order, to `sources`.
pub fn collect_externals(sources: &mut ExternalSources, expressions: &Vec<Expression>)
    ensures
        sources_view(*final(sources)) == sources_cat(sources_view(*old(sources)), exprs_sources(expressions@)),
{
    collect_list(sources, expressions)
}

} // verus!
