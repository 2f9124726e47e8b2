//! The configuration file: settings that stand in for command-line arguments
//! that were not given.

use vstd::prelude::*;

use crate::text::texts;

verus! {

/// A configuration file. Every section, and every setting in it, is optional.
#[derive(Debug, Clone)]
pub struct FileConfig {
    pub master: Option<MasterConfig>,
    pub worker: Option<WorkerConfig>,
    pub security: Option<SecurityConfig>,
}

/// The settings of a master.
#[derive(Debug, Clone)]
pub struct MasterConfig {
    pub bind_addr: Option<String>,
    pub grpc_port: Option<u16>,
    pub web_port: Option<u16>,
    pub web_enabled: Option<bool>,
    pub scheduler_interval_ms: Option<u64>,
    pub heartbeat_timeout_seconds: Option<u64>,
}

/// The settings of a worker.
#[derive(Debug, Clone)]
pub struct WorkerConfig {
    pub worker_id: Option<String>,
    pub master_ip: Option<String>,
    pub master_port: Option<u16>,
    pub worker_port: Option<u16>,
    pub max_concurrent_tasks: Option<u32>,
    pub tags: Option<Vec<String>>,
}

/// The settings of the command policy.
#[derive(Debug, Clone)]
pub struct SecurityConfig {
    pub allow_unsafe_commands: Option<bool>,
    pub allowed_commands: Option<Vec<String>>,
    pub allow_root: Option<bool>,
}

impl Default for FileConfig {
    fn default() -> (config: Self)
        ensures
            config.master is None,
            config.worker is None,
            config.security is None,
    {
        FileConfig { master: None, worker: None, security: None }
    }
}

/// The text in an optional string.
pub open spec fn text_in(s: Option<String>) -> Option<Seq<char>> {
    match s {
        Some(s) => Some(s@),
        None => None,
    }
}

/// The texts in an optional list of strings.
pub open spec fn texts_in(list: Option<Vec<String>>) -> Option<Seq<Seq<char>>> {
    match list {
        Some(list) => Some(texts(list@)),
        None => None,
    }
}

impl FileConfig {
    /// The address of the master that a worker or a client is configured with.
    pub open spec fn master_ip(&self) -> Option<Seq<char>> {
        match self.worker {
            Some(worker) => text_in(worker.master_ip),
            None => None,
        }
    }

    /// The port of the master that a client is configured with: the one for
    /// workers, or else the one that the master serves on.
    pub open spec fn client_port(&self) -> Option<u16> {
        match (self.worker, self.master) {
            (Some(worker), _) if worker.master_port is Some => worker.master_port,
            (_, Some(master)) => master.grpc_port,
            _ => None,
        }
    }

    /// Whether workers may run as root, if the file says so.
    pub open spec fn allow_root(&self) -> Option<bool> {
        match self.security {
            Some(security) => security.allow_root,
            None => None,
        }
    }

    /// Whether unsafe commands are allowed, if the file says so.
    pub open spec fn allow_unsafe_commands(&self) -> Option<bool> {
        match self.security {
            Some(security) => security.allow_unsafe_commands,
            None => None,
        }
    }

    /// The allowed command words, if the file lists them.
    pub open spec fn allowed_commands(&self) -> Option<Seq<Seq<char>>> {
        match self.security {
            Some(security) => texts_in(security.allowed_commands),
            None => None,
        }
    }
}

/// What an optional string or list holds is what is in it, if anything is.
pub proof fn law_optional_texts(s: Option<String>, list: Option<Vec<String>>)
    ensures
        text_in(s) is Some <==> s is Some,
        s is Some ==> text_in(s)->0 == s->0@,
        texts_in(list) is Some <==> list is Some,
        list is Some ==> texts_in(list)->0 == texts(list->0@),
{
}

} // verus!
