//! Verified core of the RobotCode language tooling: text geometry,
//! document editing, formatting, the debug-adapter and REPL state machines.
pub mod lsp;
pub mod text;
pub mod formatting;
pub mod dataclasses;
pub mod keywords;
pub mod rope;
pub mod json;
pub mod dap_types;
pub mod decimal;
pub mod launcher;
pub mod table;
pub mod debugger;
pub mod protocol;
pub mod repl;
pub mod text_document;
pub mod lsp_items;
pub mod semantic;
pub mod handlers;
pub mod analysis;
pub mod bridge;
pub mod jsonrpc;
pub mod path;
pub mod dap_server;
pub mod uri;
pub mod workspace;
pub mod ast;
pub mod symbols;
pub mod folding;
pub mod selection;
pub mod goto;
pub mod completion;
pub mod signature;
pub mod inlay;
pub mod tokens;
pub mod occurrences;
pub mod hover;
pub mod code_actions;
