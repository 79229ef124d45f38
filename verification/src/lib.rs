//! Flow definitions, run state, and the decisions that move a run forward.
pub mod config;
pub mod copy;
pub mod definition_laws;
pub mod devkitd;
pub mod edge_laws;
pub mod flow;
pub mod flow_source;
pub mod flows;
pub mod graph;
pub mod hooks;
pub mod ids;
pub mod job_laws;
pub mod json;
pub mod json_laws;
pub mod maps;
pub mod message_laws;
pub mod names;
pub mod platform;
pub mod ports;
pub mod query_laws;
pub mod record_laws;
pub mod recovery;
pub mod rows;
pub mod rows_laws;
pub mod run;
pub mod scheduler;
pub mod scheduler_laws;
pub mod store;
pub mod store_laws;
pub mod template;
pub mod template_laws;
pub mod text;
pub mod text_laws;
pub mod tool_failure;
pub mod use_cases;
pub mod wire;
