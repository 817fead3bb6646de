pub mod conceal;
pub mod formatting;
pub mod markdown;
