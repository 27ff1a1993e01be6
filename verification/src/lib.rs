//! Lowering passes and runtime rules of the Blinc UI language.

pub mod abi;
pub mod ast;
pub mod body_laws;
pub mod child_laws;
pub mod children;
pub mod component;
pub mod component_calls;
pub mod component_laws;
pub mod decls;
pub mod described_count;
pub mod engine;
pub mod engine_laws;
pub mod everywhere;
pub mod fsm;
pub mod fsm_calls;
pub mod fsm_decls;
pub mod fsm_instance;
pub mod fsm_source_laws;
pub mod host;
pub mod host_laws;
pub mod import_laws;
pub mod imports;
pub mod machine_laws;
pub mod match_blocks;
pub mod match_laws;
pub mod messages;
pub mod model;
pub mod name_set;
pub mod named_args;
pub mod node_laws;
pub mod notes;
pub mod numbering;
pub mod overlay;
pub mod plain;
pub mod populate;
pub mod project;
pub mod project_laws;
pub mod props;
pub mod publish;
pub mod publish_laws;
pub mod queries;
pub mod query_laws;
pub mod shape;
pub mod sheet_laws;
pub mod signal_laws;
pub mod signals;
pub mod stateful;
pub mod struct_laws;
pub mod struct_literals;
pub mod stylesheet;
pub mod styling;
pub mod text;
pub mod unit_return;
pub mod unmarked;
pub mod validate;
pub mod value_views;
pub mod view_laws;
pub mod visit_laws;
pub mod walk;
pub mod widget_laws;
pub mod widgets;

