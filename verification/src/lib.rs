use vstd::prelude::*;

pub mod chars;
pub mod attr_map;
pub mod autotag;
pub mod url;
pub mod parse_string;
pub mod string_builder;
pub mod html;
pub mod highlight;
pub mod links;
pub mod graph;
pub mod config;
pub mod pic_store;
pub mod render;
pub mod render_spec;
pub mod render_tree;
pub mod script;
pub mod make_pages;
pub mod page_tables;
pub mod sources;
pub mod image;
pub mod content;
pub mod logseq;
pub mod edn_scan;
pub mod roam_edn;
pub mod roam_graph;
pub mod template;

verus! {

} // verus!
