#![verifier::loop_isolation(false)]
//! Backend core of a local AI-chat desktop tool: a process-supervisor state
//! machine, a JSON-RPC client layer with an allowlist-checked connection
//! manager, and a chat orchestrator with a bounded tool-calling loop.

pub mod json;
pub mod mcp;
pub mod models;
pub mod nvidia_smi;
pub mod orchestrator;
pub mod paths;
pub mod rpc;
pub mod sse;
pub mod strutil;
pub mod supervisor;


