//! Verified core of the agent runtime.

pub mod agent_laws;
pub mod agentd;
pub mod document;
pub mod file_parser;
pub mod firecracker;
pub mod fraction_laws;
pub mod fractions;
pub mod http;
pub mod json;
pub mod ocr;
pub mod protocol;
pub mod render;
pub mod server;
pub mod table;
pub mod text;
pub mod text_laws;
pub mod types;
pub mod vm;
