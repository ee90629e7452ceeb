//! Recall of memories from external services.
//!
//! A service is asked with one JSON document over HTTP and answers with another. This
//! library decides what is asked, what an answer means, and how a memory is handed over
//! to a service; sending and receiving is left to its caller. A backend makes a
//! [`http::Request`], the caller sends it, and the backend turns the
//! [`http::Exchange`] that came of it into [`fragment::MemoryFragment`]s.
//!
//! - [`mcp_memory`]: services with a REST query, to which memories can also be pushed.
//! - [`qmd`]: qmd servers, queried over their MCP endpoint.
//! - [`fragment`], [`ids`], [`time`], [`calendar`]: memories, their identifiers and
//!   their times.
//! - [`json`], [`http`], [`text`]: documents, exchanges and text.
pub mod calendar;
pub mod fragment;
pub mod http;
pub mod ids;
pub mod json;
pub mod mcp_memory;
pub mod qmd;
pub mod text;
pub mod time;
