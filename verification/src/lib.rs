//! Builds the `ST.DB` soundtrack index of a console media dashboard.
//!
//! A listing of soundtrack folders is turned into three kinds of fixed-size
//! records (one header, one record per soundtrack, one record per group of up
//! to six songs), and the records are laid out as one byte stream in which the
//! soundtrack table always takes a hundred slots.
pub mod assemble;
pub mod bytes;
pub mod facts;
pub mod layout;
pub mod listing;
pub mod names;
pub mod reader;
pub mod records;
pub mod scan;
pub mod transcode;
