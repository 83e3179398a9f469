//! The rules and the wire format of a filtering DNS server.
//!
//! - `dns_codec` reads packets and builds responses; `wire` says what the bytes mean,
//!   and `dns_laws` what survives the way to bytes and back.
//! - `parser` reads rule lists of three kinds, `convert` tells them apart;
//!   `parser_laws` says what every line of a given form means.
//! - `engine` holds custom rules against names and decides which ruleset is loaded;
//!   `engine_laws` relates adding, removing and matching.
//! - `query_log` keeps the newest queries and counts all of them.
//! - `api` is what the web interface shows and switches.
//! - `rule` and `text` are what these share.
//! - `packet_laws`, `list_laws`, `match_laws`, `text_laws` and `view_laws` say what each of
//!   these does with inputs that are put together from parts: bytes, lines, names, texts.
pub mod api;
pub mod convert;
pub mod dns_codec;
pub mod dns_laws;
pub mod engine;
pub mod engine_laws;
pub mod list_laws;
pub mod match_laws;
pub mod packet_laws;
pub mod parser;
pub mod parser_laws;
pub mod qtype;
pub mod query_log;
pub mod rcode;
pub mod rule;
pub mod text;
pub mod text_laws;
pub mod view_laws;
pub mod wire;
