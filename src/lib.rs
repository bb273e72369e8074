//! Book segmentation: regroups the sentences that a text-analysis engine
//! found in a book into parts bounded by a symbol budget, and renders them.

pub mod book;
pub mod error;
pub mod info;
pub mod render;
pub mod size;
pub mod split;
pub mod text;

pub use book::{Book, Paragraph, Sentence};
pub use error::{BookError, EngineError};
pub use info::{BookInfo, ParagraphId, ParagraphInfo, SentenceId, SentenceInfo};
pub use size::StringSize;
