//! The logic of a terminal typing-speed test: normalizing a source text,
//! selecting a random contiguous window of its words as the passage to type,
//! tracking per-character progress through that passage, and computing the
//! words-per-minute figure for the finished session. The interactive shell
//! around it supplies the keyboard events and renders the passage.

pub mod select;
pub mod session;
pub mod stats;
pub mod text;

pub use select::select_passage;
pub use select::select_passage_at;
pub use session::Key;
pub use session::Session;
pub use session::StepResult;
pub use stats::words_per_minute;
pub use text::normalize;
pub use text::word_count;
