//! The in-memory text buffer of a terminal editor: lines that are edited by
//! grapheme cluster, a classifier that tags every character of a line with a
//! highlighting category, and a document that holds the lines in order.

pub mod classifier;
pub mod clusters;
pub mod color;
pub mod document;
pub mod filetype;
pub mod graphemes;
pub mod highlight;
pub mod position;
pub mod render;
pub mod row;
pub mod text;

pub use document::Document;
pub use filetype::FileType;
pub use filetype::HighlightingOptions;
pub use highlight::Rgb;
pub use highlight::Type;
pub use position::Position;
pub use position::SearchDirection;
pub use row::Row;
