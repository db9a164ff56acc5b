//! Robine: the Flow automation language, the Robine bootstrap language and
//! the pure contracts of the home-automation server.

pub mod text;
pub mod text_set;
pub mod flow_ast;
pub mod flow_syntax;
pub mod flow_check;
pub mod flow_plan;
pub mod diagnostic;
pub mod lexer;
pub mod syntax;
pub mod formatter;
pub mod format_laws;
pub mod format_idempotence;
pub mod semantic;
pub mod project;
pub mod domain;
pub mod mqtt_contract;
pub mod matter_contract;
pub mod matterd;
pub mod flow_runtime;
pub mod application;
pub mod flow_rules;
pub mod flow_guard;
pub mod flow_round_trip;
pub mod secret_store;
pub mod api_contract;
pub mod ha_import;
pub mod mqtt_adapter;
pub mod matter_adapter;
pub mod engine;
pub mod positions;
pub mod mcp;
