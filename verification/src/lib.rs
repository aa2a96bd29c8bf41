//! Verified core of the Google Fonts push tooling: the records that describe
//! families, designers and axes on a fonts server, the rules that build them
//! from metadata, HTML and font files, and the bookkeeping of a server's state.

pub mod error;
pub mod text;
pub mod html;
pub mod json;
pub mod strmap;
pub mod push;
