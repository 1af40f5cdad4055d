//! Literate documents: markdown whose code blocks are executed and whose
//! output is written back into the document.
pub mod code_runner;
pub mod document;
pub mod escaping;
pub mod event_pipeline;
pub mod fill_output_blocks;
pub mod literate_docs;
pub mod execute_code_blocks;
pub mod extract_code_blocks;
pub mod output_node;
pub mod output_order;
pub mod parse_markdown;
pub mod process;
pub mod render_markdown;
pub mod with_output_nodes;
pub mod stability;
pub mod text;
pub mod tui;
