//! Frequency counts over text: how often each character, each word or each
//! line occurs in a sequence of lines.
//!
//! [`count`] tallies the tokens of its input under a [`CountOption`] and
//! returns a [`FrequencyMap`], whose view is the multiset of the tokens.

pub mod counter;
pub mod frequency;
pub mod laws;
pub mod mode;
pub mod pattern;
pub mod tokens;

pub use counter::{count, try_count};
pub use frequency::FrequencyMap;
pub use mode::CountOption;
