//! A small grep-style regular expression engine with verified matchers.
//!
//! [`search::regex_match`] finds the first position of a line at which a
//! pattern matches; [`matchers`] holds the matchers it is built from, and
//! [`utils`] the bracket matching that pattern parsing relies on.
pub mod matchers;
pub mod search;
pub mod utils;
