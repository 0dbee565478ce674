//! Paragraphs of a text corpus that mention a clock time: the records, the
//! rules that find them, and the bookkeeping of a bounded crawl.

pub mod collect_time_paragraphs;
pub mod display_paragraph;
pub mod download_gutenberg;
pub mod paragraph_info;
pub mod pattern;
pub mod pipeline;
pub mod text;
