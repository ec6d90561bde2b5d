//! A single-node container orchestrator core: typed snapshots of the
//! container runtime ("worlds"), a diffing engine that compares the current
//! world against the expected one, decision policies that turn a diff into
//! actions, shared health/deletion state, a health-check lifecycle manager,
//! and the backend-selection logic of a health-aware TCP reverse proxy.
//!
//! Everything here is pure logic over plain values.  The surrounding
//! process (container-runtime client, HTTP probes, timers, sockets,
//! mailboxes) feeds these functions with data and carries out the actions
//! they decide on.

pub mod alist;
pub mod brain;
pub mod brain_action;
pub mod config;
pub mod config_provider;
pub mod config_world;
pub mod container_id;
pub mod debug_write;
pub mod docker_action;
pub mod docker_world;
pub mod health_check;
pub mod health_check_manager;
pub mod kv;
pub mod portmapping;
pub mod proxy_brain;
pub mod proxy_manager;
pub mod proxy_world;
pub mod seqs;
pub mod tcp_proxy;
pub mod text;
pub mod world;
