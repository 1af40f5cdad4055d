//! The state of the interactive view: the document as a list of render
//! nodes, the outputs streaming into them, scrolling and focus.
pub mod output_box;
pub mod render;
pub mod scroll;
pub mod view_state;

pub use view_state::TuiApp;
