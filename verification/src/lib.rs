//! The decisions of a local-first note keeper: how chat turns are grounded and
//! driven, how facts reach notes, how tasks, meetings, settings and models are
//! handled. Everything here is verified; what touches files, processes, the
//! network, audio or a model is done by the program around the library.
pub mod agent_tone;
pub mod asr_model;
pub mod audit;
pub mod bench;
pub mod brand;
pub mod bundled_embed;
pub mod cancel;
pub mod capture;
pub mod capture_pipeline;
pub mod chat;
pub mod claude_code;
pub mod cli_launch;
pub mod cloud;
pub mod conversation;
pub mod copilot;
pub mod daily_note;
pub mod datetime;
pub mod diarization;
pub mod diff_gen;
pub mod distillation;
pub mod embedding;
pub mod error;
pub mod extract_facts;
pub mod extraction;
pub mod formation;
pub mod formation_mcp;
pub mod formation_state;
pub mod formation_tools;
pub mod hardware;
pub mod ids;
pub mod indexer;
pub mod intent;
pub mod json;
pub mod llm_extractor;
pub mod meeting;
pub mod meeting_note;
pub mod memory;
pub mod models;
pub mod paths;
pub mod session;
pub mod settings;
pub mod staging;
pub mod tasks;
pub mod text;
pub mod turn_flow;
