//! The settings the backend reads once at startup.

use vstd::prelude::*;

verus! {

/// Startup settings; fixed for the life of the process.
pub struct ServerConfig {
    /// Path of the provisioner's executable.
    pub steamcmd_location: String,
    /// Address of the remote catalog service.
    pub steam_api_url: String,
    /// Location of the server and catalog database.
    pub database_url: String,
    /// Directory below which servers are installed.
    pub base_dir: String,
}

} // verus!
