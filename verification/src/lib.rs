//! Verified core logic of the MemPalace memory store: scoring, validation,
//! quota accounting, fact checking, locale detection and text formatting.

pub mod disk_size_manager;
pub mod text;
pub mod types;
pub mod edit_distance;
pub mod civil_date;
pub mod fact_checker;
pub mod auth;
pub mod eval_score;
pub mod eval;
pub mod locales;
pub mod context_inject;
pub mod obsidian_export;
pub mod exporter;
pub mod http_transport;
pub mod snapshot;
pub mod llm;
pub mod daemon;
pub mod dedup;
pub mod drawer_store;
pub mod json;
pub mod normalize;
pub mod exports;
pub mod pipeline;
pub mod claude_code;
pub mod observations;
pub mod connect;
pub mod export_groups;
pub mod http_guards;
pub mod graph_retrieval;
pub mod backup;
pub mod moc;
pub mod coordination;
pub mod mcp_route;
pub mod standalone;
pub mod context_sections;
