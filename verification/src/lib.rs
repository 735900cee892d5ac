//! Core of an inspector for zip-based container documents: the hierarchy of
//! an archive's entry names and the re-indentation of markup entries.

pub mod builder;
pub mod display;
pub mod growth;
pub mod keys;
pub mod markup;
pub mod model;
pub mod node;
pub mod segments;
pub mod selection;

pub use builder::{build, build_tree};
pub use display::{create_tree, DisplayItem};
pub use keys::{on_key, Action, CurrentWidget, Key};
pub use markup::{forward, pretty_print_xml, FormatError};
pub use node::Node;
pub use segments::{entry_name, is_path_segment, split_path};
pub use selection::{display_update, selected_entry};
