//! DWBase: an agent-first memory store built around immutable atoms.

pub mod ask_laws;
pub mod atom;
pub mod bloom;
pub mod bytes;
pub mod calls;
pub mod cipher;
pub mod clock;
pub mod codec;
pub mod component;
pub mod component_laws;
pub mod conflict;
pub mod db;
pub mod engine;
pub mod gc_laws;
pub mod i18n;
pub mod ids;
pub mod index;
pub mod json;
pub mod keys;
pub mod layout;
pub mod lists;
pub mod membership;
pub mod message;
pub mod model;
pub mod moment;
pub mod nats;
pub mod node;
pub mod node_laws;
pub mod policy;
pub mod qa;
pub mod quarantine;
pub mod recall;
pub mod record;
pub mod reflex;
pub mod remember_laws;
pub mod replication;
pub mod replication_laws;
pub mod replicator;
pub mod scan_laws;
pub mod sealing_laws;
pub mod single;
pub mod sled_engine;
pub mod sled_store;
pub mod storage_laws;
pub mod subscriptions;
pub mod summary;
pub mod swarm;
pub mod swarm_laws;
pub mod table;
pub mod text;
pub mod text_laws;
pub mod wire;
pub mod wit;
pub mod world_events;
pub mod world_laws;
pub mod world_status;
