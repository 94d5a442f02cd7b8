//! AI orchestration: circuit intents, real-part validation, the
//! generation prompt and the MCP request routing.

pub mod intent;

pub mod prompt;
pub mod validator;
pub mod mcp;
