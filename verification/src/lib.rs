pub mod text;
pub mod paths;
pub mod document;
pub mod search;
pub mod render_spec;
pub mod render;
pub mod collapse;
pub mod util;
pub mod md_lexer;
pub mod md_parsing;
pub mod obsidian_lexer;
pub mod obsidian_parsing;
pub mod resolve;
pub mod zk_lexer;
pub mod zk_parsing;
pub mod logseq_lexer;
pub mod logseq_parsing;
pub mod parse;
pub mod config;
pub mod tasks;
pub mod edit;
pub mod handlers;
pub mod mentions;
pub mod tidy;
pub mod order;
pub mod imports;
pub mod similar;
pub mod checklist;
pub mod ui_state;
pub mod redirect;
pub mod duplicates;
pub mod youtube;
