//! A markdown preprocessor that rewrites the inline markers `#f`, `#q` and
//! `#a` into collapsible-disclosure HTML (`<details>`/`<summary>`), while
//! leaving every other markdown construct intact.

pub mod book;
pub mod events;
pub mod laws;
pub mod rewrite;
pub mod text;

pub use book::Book;
pub use book::BookItem;
pub use book::Chapter;
pub use book::FoldAQ;
pub use rewrite::fold_txt;
pub use rewrite::FoldError;
pub use text::escape_html;
pub use text::rewrite_text;
pub use text::str_has_marker;
