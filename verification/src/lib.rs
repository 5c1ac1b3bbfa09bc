//! A verified core for a descriptor-driven RPC substrate.
//!
//! Calls and replies travel as canonically framed wire messages
//! (`codec`, `transport`); a server routes each decoded request against
//! a static descriptor table and frames the outcome (`descriptor`,
//! `dispatch`, `http`); a client issues per-call identifiers and matches
//! each reply to exactly the call that asked for it, whatever order
//! replies arrive in (`correlator`, `client`); and a cooperative
//! scheduler advances call futures one externally triggered step at a
//! time (`scheduler`).  Around that core stand the editor service's own
//! face (`service`, `api`), the bundled static files (`static_files`),
//! the startup flags (`options`), the error chain model (`errors`), the
//! semantic class model (`semantic`), and the document types the
//! service edits (`markdown`, `data`).

pub mod api;
pub mod client;
pub mod codec;
pub mod correlator;
pub mod data;
pub mod descriptor;
pub mod dispatch;
pub mod errors;
pub mod http;
pub mod markdown;
pub mod options;
pub mod scheduler;
pub mod semantic;
pub mod service;
pub mod static_files;
pub mod text;
pub mod transport;
