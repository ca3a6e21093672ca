//! Options of MySQL connections.

use vstd::prelude::*;

verus! {

/// How to connect to MySQL.
#[derive(Copy, Clone, Debug)]
pub struct MysqlOptions {
    /// The port of myrouter, if connections go through it.
    pub myrouter_port: Option<u16>,
    /// Whether only the master may be read from.
    pub master_only: bool,
}

/// Which database a read goes to.
#[derive(Copy, Clone, Debug, PartialEq, Eq, Structural)]
pub enum ReadConnectionType {
    Replica,
    Master,
}

impl MysqlOptions {
    /// Which database reads go to.
    pub fn read_connection_type(&self) -> (res: ReadConnectionType)
        ensures
            res == if self.master_only {
                ReadConnectionType::Master
            } else {
                ReadConnectionType::Replica
            },
    {
        if self.master_only {
            ReadConnectionType::Master
        } else {
            ReadConnectionType::Replica
        }
    }
}

/// How many connections of each kind a pool keeps.
#[derive(Copy, Clone, Debug, PartialEq, Eq, Structural)]
pub struct PoolSizeConfig {
    pub write_pool_size: usize,
    pub read_pool_size: usize,
    pub read_master_pool_size: usize,
}

} // verus!
