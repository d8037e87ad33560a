//! Block-level settings shared by the readers and the renderer.
use vstd::prelude::*;

use crate::attr_map::AttrMap;
use crate::content::BlockContent;

verus! {

/// How the children of a block are laid out.
#[derive(Debug, Copy, Clone, PartialEq, Eq, Structural)]
pub enum ViewType {
    Inherit,
    Bullet,
    Numbered,
    Document,
}

/// The view type that a setting's value names; anything unknown inherits.
pub open spec fn view_type_named(value: Seq<char>) -> ViewType {
    if value == seq!['d', 'o', 'c', 'u', 'm', 'e', 'n', 't'] {
        ViewType::Document
    } else if value == seq!['n', 'u', 'm', 'b', 'e', 'r', 'e', 'd'] {
        ViewType::Numbered
    } else if value == seq!['b', 'u', 'l', 'l', 'e', 't'] {
        ViewType::Bullet
    } else {
        ViewType::Inherit
    }
}

pub open spec fn resolve_spec(own: ViewType, parent: ViewType) -> ViewType {
    match own {
        ViewType::Inherit => parent,
        _ => own,
    }
}

impl ViewType {
    /// The view type of a block that says nothing and has no parent to inherit from.
    pub fn default_view_type() -> (r: ViewType)
        ensures
            r == ViewType::Bullet,
    {
        ViewType::Bullet
    }

    /// The effective view type: the block's own, or its parent's if it inherits.
    pub fn resolve_with_parent(&self, parent: ViewType) -> (r: ViewType)
        ensures
            r == resolve_spec(*self, parent),
    {
        match self {
            ViewType::Inherit => parent,
            _ => *self,
        }
    }

    /// The view type that a `view-mode` value names.
    pub fn from_name(value: &str) -> (r: ViewType)
        ensures
            r == view_type_named(value@),
    {
        let chars = crate::chars::to_chars(value);
        proof {
            reveal_strlit("document");
            reveal_strlit("numbered");
            reveal_strlit("bullet");
            assert("document"@ =~= seq!['d', 'o', 'c', 'u', 'm', 'e', 'n', 't']);
            assert("numbered"@ =~= seq!['n', 'u', 'm', 'b', 'e', 'r', 'e', 'd']);
            assert("bullet"@ =~= seq!['b', 'u', 'l', 'l', 'e', 't']);
        }
        if crate::chars::chars_equal(&chars, "document") {
            ViewType::Document
        } else if crate::chars::chars_equal(&chars, "numbered") {
            ViewType::Numbered
        } else if crate::chars::chars_equal(&chars, "bullet") {
            ViewType::Bullet
        } else {
            ViewType::Inherit
        }
    }
}

impl Default for ViewType {
    fn default() -> (r: ViewType)
        ensures
            r == ViewType::Inherit,
    {
        ViewType::Inherit
    }
}

/// Resolving twice against the same parent changes nothing more.
pub proof fn lemma_resolve_idempotent(own: ViewType, parent: ViewType)
    ensures
        resolve_spec(resolve_spec(own, parent), parent) == resolve_spec(own, parent),
{
}

/// A resolved view type inherits only if both the block and its parent do.
pub proof fn lemma_resolve_inherits_only_from_inherit(own: ViewType, parent: ViewType)
    ensures
        resolve_spec(own, parent) == ViewType::Inherit <==> (own == ViewType::Inherit && parent
            == ViewType::Inherit),
{
}

/// Which parts of a block are rendered.
#[derive(Debug, Copy, Clone, PartialEq, Eq, Structural)]
pub enum BlockInclude {
    /// Render the block and its children.
    AndChildren,
    /// Skip rendering the block, but render its children.
    OnlyChildren,
    /// Render just this block and not its children.
    JustBlock,
    /// Don't render the block or its children.
    Exclude,
    /// Render the block and its children, if the children have content
    IfChildrenPresent,
}

impl Default for BlockInclude {
    fn default() -> (r: BlockInclude)
        ensures
            r == BlockInclude::AndChildren,
    {
        BlockInclude::AndChildren
    }
}

/// How a block numbers itself within its parent's list.
#[derive(Debug, Copy, Clone, PartialEq, Eq, Structural)]
pub enum ListType {
    Default,
    Number,
}

impl Default for ListType {
    fn default() -> (r: ListType)
        ensures
            r == ListType::Default,
    {
        ListType::Default
    }
}


/// A block of the graph: a page's own block or one of its content blocks.
#[derive(Debug)]
pub struct Block {
    pub id: usize,
    pub containing_page: usize,
    pub page_title: Option<String>,
    pub original_title: Option<String>,
    pub uid: String,
    pub parent: Option<usize>,
    pub children: Vec<usize>,
    pub order: usize,
    pub include_type: BlockInclude,
    pub tags: Vec<String>,
    pub attrs: AttrMap,
    pub is_journal: bool,
    pub contents: BlockContent,
    pub heading: usize,
    pub view_type: ViewType,
    pub this_block_list_type: ListType,
    pub edit_time: u64,
    pub create_time: u64,
    pub extra_classes: Vec<String>,
    pub content_element: Option<String>,
    pub wrapper_element: Option<String>,
}

/// A page and its blocks; block `i` of the list has id `root_block + i`, and the first is the
/// page's own block.
#[derive(Debug)]
pub struct ParsedPage {
    pub root_block: usize,
    pub blocks: Vec<Block>,
    pub path: String,
}

impl ParsedPage {
    /// Ids are consecutive from the page's own block.
    pub open spec fn wf(&self) -> bool {
        &&& self.blocks@.len() > 0
        &&& forall|i: int|
            0 <= i < self.blocks@.len() ==> (#[trigger] self.blocks@[i]).id == self.root_block + i
    }
}

} // verus!
