//! The text of a block together with its parsed expressions.
use vstd::prelude::*;

use crate::parse_string::{exprs_model, parse_spec, try_parse, ContentStyle, Expr, Expression};

verus! {

/// A block's text and the expressions parsed from it.
#[derive(Debug)]
pub struct BlockContent {
    pub style: ContentStyle,
    pub string: String,
    pub parsed: Vec<Expression>,
}

/// Why a block's text could not become content.
#[derive(Debug, Clone, Copy, PartialEq, Eq, Structural)]
pub enum ContentError {
    /// The grammar cannot be carried out on the text.
    Unparsable,
}

impl BlockContent {
    /// The expressions, as a mathematical sequence.
    pub open spec fn model(&self) -> Seq<Expr> {
        exprs_model(self.parsed@)
    }

    /// The parsed expressions are those of the text.
    pub open spec fn wf(&self) -> bool {
        parse_spec(self.style, self.string@) == Some(self.model())
    }

    /// Parse `content` in the given style. Fails exactly where the grammar cannot be carried out.
    pub fn new_parsed(style: ContentStyle, content: String) -> (r: Result<BlockContent, ContentError>)
        ensures
            match parse_spec(style, content@) {
                Some(m) => r matches Ok(c) && c.wf() && c.style == style && c.string@ == content@
                    && c.model() == m,
                None => r == Err::<BlockContent, ContentError>(ContentError::Unparsable),
            },
    {
        match try_parse(style, content.as_str()) {
            Some(parsed) => Ok(BlockContent { style, string: content, parsed }),
            None => Err(ContentError::Unparsable),
        }
    }

    /// Content with no text and no expressions.
    pub fn new_empty(style: ContentStyle) -> (r: BlockContent)
        ensures
            r.style == style,
            r.string@ == Seq::<char>::empty(),
            r.parsed@.len() == 0,
    {
        BlockContent { style, string: String::new(), parsed: Vec::new() }
    }
}

impl Default for BlockContent {
    fn default() -> (r: BlockContent)
        ensures
            r.style == ContentStyle::Logseq,
            r.string@ == Seq::<char>::empty(),
            r.parsed@.len() == 0,
    {
        BlockContent::new_empty(ContentStyle::Logseq)
    }
}

impl PartialEq for BlockContent {
    fn eq(&self, other: &Self) -> (r: bool) {
        self.string == other.string
    }
}

impl vstd::std_specs::cmp::PartialEqSpecImpl for BlockContent {
    open spec fn obeys_eq_spec() -> bool {
        true
    }

    open spec fn eq_spec(&self, other: &Self) -> bool {
        self.string@ == other.string@
    }
}

impl Eq for BlockContent {

}

} // verus!
