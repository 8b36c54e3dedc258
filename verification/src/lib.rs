//! An interactive navigator over indentation-delimited text.
//!
//! Text is read as a forest of folders and leaves (`parser`). A
//! `ContentWidget` walks through the forest, one folder at a time or with
//! everything below a folder laid out flat (`flatten`), and filters what it
//! shows by a regular expression, highlighting what matched (`search`,
//! `highlight`, `fanout`).

pub mod config;
pub mod content;
pub mod entry;
pub mod error;
pub mod fanout;
pub mod flatten;
pub mod forest;
pub mod highlight;
pub mod indent;
pub mod offsets;
pub mod parser;
pub mod pattern;
pub mod search;
pub mod session;
pub mod text;
pub mod widgets;

pub use config::{read_config, Color, Config, Prefix, Theme};
pub use content::{Content, ContentWidget, DisplayMode};
pub use entry::{Entry, Segment, Style};
pub use error::NavigatorError;
pub use parser::from_separator;
pub use session::{Key, Outcome, Session};
pub use widgets::{
    Direction, Emphasis, InfoWidget, ListWidget, Paragraph, ParagraphWidget, SearchWidget,
    Selectable,
};
