//! The records that the port scan hands to its callers.
use vstd::prelude::*;

verus! {

/// One process that holds a listening port, as one row of `lsof` shows it.
#[derive(Debug, Clone)]
pub struct PortProcess {
    pub pid: i32,
    pub port: u16,
    /// The NODE column: `TCP` or `UDP`.
    pub protocol: String,
    /// The COMMAND column.
    pub command: String,
    /// For now the same as `command`.
    pub process_name: String,
    pub user: String,
    /// The NAME column and everything after it, such as `*:3000 (LISTEN)`.
    pub address: String,
}

/// The mathematical content of a `PortProcess`.
pub struct PortRow {
    pub pid: i32,
    pub port: u16,
    pub protocol: Seq<char>,
    pub command: Seq<char>,
    pub process_name: Seq<char>,
    pub user: Seq<char>,
    pub address: Seq<char>,
}

impl View for PortProcess {
    type V = PortRow;

    open spec fn view(&self) -> PortRow {
        PortRow {
            pid: self.pid,
            port: self.port,
            protocol: self.protocol@,
            command: self.command@,
            process_name: self.process_name@,
            user: self.user@,
            address: self.address@,
        }
    }
}

/// Working folder and full command line of one process.
#[derive(Debug, Clone)]
pub struct ProcessMeta {
    pub pid: i32,
    pub cwd: String,
    pub full_command: String,
}

} // verus!
