//! A verified core for a multi-user media tagging service.
//!
//! The library keeps a tag dictionary, a record of media entities, per-user
//! entity/tag associations and per-user usage statistics, and answers
//! multi-tag prefix searches over them. A bulk transfer layer exports a
//! user's data as a compressed JSON snapshot and imports it back — or a
//! third-party exporter's file — without loss.

pub mod assoc;
pub mod bulk;
pub mod entities;
pub mod fix;
pub mod global_stats;
pub mod json;
pub mod json_enc;
pub mod json_exec;
pub mod json_rt;
pub mod media;
pub mod search;
pub mod seq_util;
pub mod sorting;
pub mod store;
pub mod text;
pub mod types;
pub mod usage;
pub mod users;
pub mod util;
