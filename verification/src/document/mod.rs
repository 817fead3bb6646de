pub mod metadata;
pub mod state;


pub use metadata::TextCounts;
pub use state::{Document, DocumentStatus};
