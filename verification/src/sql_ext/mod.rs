//! Connections to SQL databases.

pub mod facebook;

use vstd::prelude::*;

verus! {

/// The connections that one store needs.
#[derive(Clone)]
pub struct SqlConnections<C> {
    /// The connection to write through.
    pub write_connection: C,
    /// The connection to read through, where an old answer will do.
    pub read_connection: C,
    /// The connection to read through, where it will not.
    pub read_master_connection: C,
}

impl<C: Clone> SqlConnections<C> {
    /// Uses one connection for everything.
    pub fn new_single(connection: C) -> (connections: Self)
        ensures
            cloned(connection, connections.write_connection),
            cloned(connection, connections.read_connection),
            connections.read_master_connection == connection,
    {
        SqlConnections {
            write_connection: connection.clone(),
            read_connection: connection.clone(),
            read_master_connection: connection,
        }
    }
}

/// How a transaction ended.
#[must_use]
pub enum TransactionResult<T> {
    /// It went through, and is still open.
    Succeeded(T),
    /// It failed.
    Failed,
}

/// Where cloning a connection gives an equal one, all connections of a single connection are
/// equal to it.
pub proof fn law_single_connection_is_used_for_everything<C: Clone>(
    connection: C,
    connections: SqlConnections<C>,
)
    requires
        forall|a: C, b: C| #[trigger] cloned(a, b) ==> a == b,
        cloned(connection, connections.write_connection),
        cloned(connection, connections.read_connection),
        connections.read_master_connection == connection,
    ensures
        connections == (SqlConnections {
            write_connection: connection,
            read_connection: connection,
            read_master_connection: connection,
        }),
{
}

} // verus!
