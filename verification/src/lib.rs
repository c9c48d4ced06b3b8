//! Life-expectancy statistics by country: the rows of the source page, the
//! ordered chain of sources, the file locations and the scale of rounding.
//!
//! The crate works on text, whole numbers and decisions. Turning cell text
//! into numbers, averaging them, reading and writing tables, and all file and
//! network access belong to the caller.
//!
//! - [`table`] finds the statistics table in an HTML text and hands out its
//!   rows; [`rows`] decides which rows count and which of two rows of one
//!   country stays. [`dom`] states what is relied on of the HTML parser.
//! - [`chain`] orders the sources: cache, remote page, default data.
//! - [`paths`] says where the cache file and the default data are.
//! - [`rounding`] gives the power of ten for a number of decimal places.

pub mod dom;
pub mod rows;
pub mod table;
pub mod chain;
pub mod paths;
pub mod rounding;
