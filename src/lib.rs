//! A text-expansion engine: a typing buffer, a suffix trie and regex matcher
//! for triggers, and an expander that fills variables, propagates case and
//! places the cursor.

pub mod builtins;
pub mod casing;
pub mod config;
pub mod engine;
pub mod expander;
pub mod keymaps;
pub mod laws;
pub mod matcher;
pub mod monitor;
pub mod output;
pub mod text;
pub mod tray;
pub mod trie;
pub mod variables;

pub use config::{
    default_keystroke_delay, default_layout, default_true, flatten_snippets, Config, Folder,
    Settings, Snippet, SnippetNode,
};
pub use engine::{apply_delete_setting, process_event};
pub use expander::{expand_match, expand_snippet, replace_captures, ExpansionResult};
pub use keymaps::KeyMap;
pub use matcher::{MatchResult, Matcher};
pub use monitor::{is_event_node, is_keyboard_keys, KeyNormalizer, KeyboardEvent};
pub use text::strip_trailing_newlines;
pub use output::{OutputEngine, OutputStep, PipeOutputEngine};
pub use tray::TrayCommand;
pub use trie::{Trie, TrieNode};
pub use builtins::{resolve_builtin, ExpandError};
pub use casing::{case_mode, propagate_case, CaseMode, CharCase};
pub use variables::{expand_variables, find_cursor_position, HostRequest, VarNode};
