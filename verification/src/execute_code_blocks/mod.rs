//! Finding executable code in a document and running it.
pub mod default_language_config;
pub mod language_config;
pub mod streaming_execution;
pub mod sync_execution;

pub use default_language_config::{find_language, is_executable};
pub use language_config::{
    is_executable_code_node, is_executable_node, is_hidden_executable_comment, CommandTemplate,
    ExecCommand, ExecutableCodeBlock, LanguageConfig,
};
pub use sync_execution::{detect_tool, execute_code, execute_code_blocks};
pub use streaming_execution::ExecutionEvent;
