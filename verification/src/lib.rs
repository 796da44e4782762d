//! Keyword search over a locally mirrored book of markdown pages.
//!
//! The book is a tree of markdown files. A search cuts every page into
//! sections at its headings, scores each section by where the terms of the
//! query occur, keeps the sections that score above one, puts the code
//! listings into them that they name, and ranks them. The results are browsed
//! one at a time in the terminal.
//!
//! This crate holds the rules of all that, stated and proved over plain
//! values. It reads no file and draws nothing: pages and listings come in as
//! strings, and what is to be drawn or opened goes out as a value.
//!
//! - [`text`]: text as a sequence of characters, and the primitives on it.
//! - [`section`]: pages, listings and sections.
//! - [`segment`]: cutting a page into pieces.
//! - [`score`]: scoring the pieces of a page for a query.
//! - [`listing`] and [`listing_laws`]: putting listings into a section.
//! - [`rank`]: ordering sections by score.
//! - [`search`]: the search over the whole book.
//! - [`navigator`]: browsing the results.
//! - [`link`]: what to open for a section.
//! - [`paths`]: where the book lies, and what is a page.

pub mod link;
pub mod listing;
pub mod listing_laws;
pub mod navigator;
pub mod paths;
pub mod rank;
pub mod score;
pub mod search;
pub mod section;
pub mod segment;
pub mod text;
