//! Accounts of several command line tools: which there are, how much of each is used,
//! and when to switch from one to another.
//!
//! The modules from `text` to `json` are the ground: texts, numbers, instants, maps.
//! `gating` and `poll_policy` judge usage windows, `usage_store` keeps what was measured,
//! `collect`, `fetch`, `pass` and `collect_view` are a collection pass, `switch`,
//! `switch_perform` and `switch_flow` a switch, and the modules named `auto` the loop that
//! decides when to make one. The rest are the verbs. The modules whose names end in `laws`
//! state what holds of them, over what they take and what they return.

pub mod add;
pub mod add_token;
pub mod auto;
pub mod auto_bar;
pub mod auto_course;
pub mod auto_laws;
pub mod auto_rank;
pub mod auto_report;
pub mod auto_schedule;
pub mod auto_tick;
pub mod collect;
pub mod collect_laws;
pub mod collect_view;
pub mod compact;
pub mod config;
pub mod contract;
pub mod edit_laws;
pub mod edits;
pub mod errors;
pub mod event_laws;
pub mod events;
pub mod export;
pub mod fetch;
pub mod files;
pub mod gating;
pub mod history;
pub mod ignite;
pub mod import;
pub mod import_laws;
pub mod json;
pub mod list;
pub mod loop_laws;
pub mod measure_laws;
pub mod notify;
pub mod numfmt;
pub mod oauth;
pub mod oauth_laws;
pub mod order;
pub mod outputs;
pub mod pass;
pub mod pass_laws;
pub mod poll_policy;
pub mod refresh;
pub mod rotation_laws;
pub mod settings;
pub mod settings_laws;
pub mod slot_map;
pub mod slots;
pub mod split;
pub mod switch;
pub mod switch_flow;
pub mod switch_laws;
pub mod switch_perform;
pub mod table;
pub mod text;
pub mod timefmt;
pub mod unclaimed;
pub mod units;
pub mod usage_laws;
pub mod usage_store;
pub mod verb_laws;
pub mod verbs;
