//! Decision logic of the Millie local-model agent, with its contracts.

pub mod alignment;
pub mod broker;
pub mod call_events;
pub mod canonical;
pub mod catalog;
pub mod chat;
pub mod chat_stream;
pub mod conversation;
pub mod correction;
pub mod decimals;
pub mod digest;
pub mod dispatch;
pub mod download;
pub mod edit;
pub mod events;
pub mod grammar;
pub mod install_plan;
pub mod installation;
pub mod json;
pub mod json_text;
pub mod launch;
pub mod line_diff;
pub mod markers;
pub mod model_call_log;
pub mod model_updates;
pub mod normalization;
pub mod oss;
pub mod pathology;
pub mod pets;
pub mod prompt;
pub mod raw_stream;
pub mod redaction;
pub mod regions;
pub mod reindent;
pub mod render;
pub mod repeat_guard;
pub mod repetition;
pub mod request;
pub mod round_trip;
pub mod seeding;
pub mod selection;
pub mod server;
pub mod settings;
pub mod skills;
pub mod sse;
pub mod system_prompt;
pub mod telemetry;
pub mod text;
pub mod tool_call;
pub mod tool_specs;
pub mod traffic_log;
pub mod update_action;
