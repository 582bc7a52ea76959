//! Host status probe: parsers for the text that `ping`, a speed test and
//! `sensors` print, and the assembly of one status snapshot from what the
//! host and those tools reported, behind a bearer-token check.
pub mod number;
pub mod ping;
pub mod speedtest;
pub mod status;
pub mod text;
pub mod thermal;
