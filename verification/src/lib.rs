//! A linter for Python import style and project patterns.
pub mod cache;
pub mod check_laws;
pub mod cli;
pub mod cli_laws;
pub mod config;
pub mod config_laws;
pub mod config_read;
pub mod diff;
pub mod document;
pub mod edit;
pub mod engine;
pub mod engine_laws;
pub mod fix_run;
pub mod formats;
pub mod git;
pub mod import_items;
pub mod import_laws;
pub mod imports;
pub mod init;
pub mod json;
pub mod kis001;
pub mod kis001_fix;
pub mod kis001_fix_laws;
pub mod kis001_laws;
pub mod kis002;
pub mod kis002_laws;
pub mod kpt;
pub mod kpt_fix;
pub mod kpt_laws;
pub mod kpt_read;
pub mod kpt_source_laws;
pub mod kpt_target;
pub mod line_index;
pub mod lsp_actions;
pub mod lsp_diff;
pub mod lsp_laws;
pub mod lsp_position;
pub mod lsp_session;
pub mod matching;
pub mod memo;
pub mod migrations;
pub mod module_facts;
pub mod module_probe;
pub mod noqa;
pub mod noqa_laws;
pub mod ordered;
pub mod output;
pub mod output_laws;
pub mod overrides;
pub mod overrides_laws;
pub mod parse;
pub mod path_laws;
pub mod paths;
pub mod probe_laws;
pub mod questions;
pub mod report;
pub mod rewrite;
pub mod rewrite_laws;
pub mod rule_command;
pub mod rule_laws;
pub mod rules;
pub mod run;
pub mod run_laws;
pub mod scope;
pub mod scope_laws;
pub mod search_path;
pub mod sorting;
pub mod split;
pub mod statistics;
pub mod syntax;
pub mod text;
pub mod text_laws;
pub mod theme;
pub mod types;
pub mod upgrade;
pub mod xml;
pub mod zed;
pub mod zuul;
