//! The command that serves SQL over the workspace's data.

use vstd::prelude::*;

verus! {

/// Serves SQL on an address and port.
pub struct SqlServerCommand {
    pub address: String,
    pub port: u16,
}

impl SqlServerCommand {
    pub fn new(address: &str, port: u16) -> (r: SqlServerCommand)
        ensures
            r.address@ == address@,
            r.port == port,
    {
        SqlServerCommand { address: address.to_owned(), port }
    }
}

} // verus!
