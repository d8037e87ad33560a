//! Reading a Logseq graph: page headers, attribute lines and blocks.
pub mod attrs;
pub mod blocks;
pub mod page_header;
pub mod file;
pub mod db;
pub mod metadata;
pub mod page_blocks;
