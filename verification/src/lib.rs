//! Event database of a social client: signed-event envelopes, their payload
//! lifecycle and the social indexes derived from them, kept in `redb` tables.

pub mod account;
pub mod answer_laws;
pub mod arrival_laws;
pub mod basic_laws;
pub mod bytes;
pub mod candidate_laws;
pub mod content;
pub mod database;
pub mod deletion_laws;
pub mod effect_laws;
pub mod error;
pub mod event;
pub mod event_laws;
pub mod follow;
pub mod follow_laws;
pub mod graph;
pub mod graph_laws;
pub mod history_laws;
pub mod ids;
pub mod insert_event;
pub mod latest;
pub mod lifecycle;
pub mod lifecycle_laws;
pub mod limits;
pub mod lineage;
pub mod listing;
pub mod merging;
pub mod order;
pub mod page_laws;
pub mod paging;
pub mod payload;
pub mod payload_laws;
pub mod personas;
pub mod post_laws;
pub mod process_content;
pub mod process_event;
pub mod profile;
pub mod projection;
pub mod projection_laws;
pub mod quota_laws;
pub mod quota_pruning;
pub mod reading_laws;
pub mod reception;
pub mod retention;
pub mod retention_index;
pub mod retention_laws;
pub mod social;
pub mod soundness;
pub mod storage;
pub mod strings;
pub mod table;
pub mod tables;
pub mod timeline;
pub mod trust_laws;
pub mod usage;
pub mod words;
pub mod wot;
