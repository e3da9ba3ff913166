//! A tool-router dispatch layer: a registry of routers and their tools, the
//! per-request dispatch decisions, message framing and a keyed session store,
//! with every function proved against its contract.

pub mod decimal;
pub mod descriptor;
pub mod dispatcher;
pub mod endpoint;
pub mod error;
pub mod name;
pub mod registry;
pub mod router;
pub mod samples;
pub mod server;
pub mod session;
pub mod text;
pub mod value;
pub mod wire;
