//! Tokenizer for an indentation-sensitive manifest of named groups of
//! link and copy operations.
//!
//! The text is read one Unicode scalar value at a time by a located
//! character source (`chars`), and turned by a small state machine into a
//! finite run of tokens (`token`): indentation changes, line ends, the two
//! move operators and compound names.
//!
//! `machine` holds the state machine as mathematics, `iterator` the
//! tokenizer that is proved to follow it pull by pull, `wellformed` the
//! proof that every move keeps the state well formed, and `laws` what
//! holds of every run of tokens: indentation is balanced, locations never
//! go back, and names spell the text they were read from.
//!
//! One thing is believed and not proved: what `Itertools::take_while_ref`
//! hands out when a run of spaces and tabs is measured (`chars`).

pub mod chars;
pub mod iterator;
pub mod laws;
pub mod machine;
pub mod token;
pub mod wellformed;
