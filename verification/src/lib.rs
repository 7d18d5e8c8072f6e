//! Workflow graphs, run state and scheduling rules of the dagron engine.
pub mod advance;
pub mod attempt_log;
pub mod claims;
pub mod clock;
pub mod dag;
pub mod datasets;
pub mod decimal;
pub mod duration;
pub mod expand;
pub mod fault;
pub mod gangs;
pub mod graph;
pub mod host;
pub mod jsonpred;
pub mod labels;
pub mod laws;
pub mod leadership;
pub mod leases;
pub mod messages;
pub mod models;
pub mod order;
pub mod outbox;
pub mod parks;
pub mod queries;
pub mod reap;
pub mod records;
pub mod reruns;
pub mod retention;
pub mod rows;
pub mod rules;
pub mod runs;
pub mod schedules;
pub mod sources;
pub mod store;
pub mod sweeps;
pub mod table;
pub mod tasks;
pub mod text;
pub mod text_map;
pub mod time;
pub mod trigger_sweep;
pub mod triggers;
pub mod workflow;
