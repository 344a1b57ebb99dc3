//! Install orchestration for dedicated game servers: a job queue drained by a
//! single worker, the provisioner's argument list, and a broadcast of the
//! provisioner's output lines to live subscribers.

pub mod broadcast;
pub mod channel;
pub mod handlers;
pub mod install;
pub mod service;
pub mod steam_apps;
pub mod storage;
pub mod text;
pub mod types;
