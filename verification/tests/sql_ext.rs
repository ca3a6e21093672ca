use mononoke::sql_ext::facebook::{MysqlOptions, PoolSizeConfig, ReadConnectionType};
use mononoke::sql_ext::{SqlConnections, TransactionResult};

#[test]
fn one_connection_serves_for_everything() {
    let connections = SqlConnections::new_single("db".to_string());
    assert_eq!(connections.write_connection, "db");
    assert_eq!(connections.read_connection, "db");
    assert_eq!(connections.read_master_connection, "db");
}

#[test]
fn master_only_reads_from_the_master() {
    let options = MysqlOptions { myrouter_port: Some(3306), master_only: true };
    assert_eq!(options.read_connection_type(), ReadConnectionType::Master);
    let options = MysqlOptions { myrouter_port: None, master_only: false };
    assert_eq!(options.read_connection_type(), ReadConnectionType::Replica);
}

#[test]
fn results_and_pool_sizes_are_plain_values() {
    let result: TransactionResult<u8> = TransactionResult::Succeeded(3);
    assert!(matches!(result, TransactionResult::Succeeded(3)));
    let failed: TransactionResult<u8> = TransactionResult::Failed;
    assert!(matches!(failed, TransactionResult::Failed));
    let sizes = PoolSizeConfig { write_pool_size: 1, read_pool_size: 2, read_master_pool_size: 3 };
    assert_eq!(sizes.read_master_pool_size, 3);
}
