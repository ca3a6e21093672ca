use mononoke::benchmark_filestore::args::{
    parse_options, BenchmarkArgs, FilestoreConfig, DEFAULT_CHUNK_SIZE, DEFAULT_CONCURRENCY,
    DEFAULT_INPUT_CAPACITY,
};
use mononoke::benchmark_filestore::blob::{
    choose_backend, choose_throttle, next_action, presence_pool_size, Backend, BlobAction, CachePools,
    BlobArgs, BlobStage, ThrottleOptions, XdbAccess,
};
use mononoke::benchmark_filestore::run::{
    fetched_stream, plan_input, prefix_input, read_outcome, steps_after_store, FetchError, RunStep,
};
use mononoke::number::NumberError;
use mononoke::sql_ext::facebook::ReadConnectionType;

fn default_args() -> BenchmarkArgs {
    BenchmarkArgs {
        input: "file".to_string(),
        input_capacity: DEFAULT_INPUT_CAPACITY.to_string(),
        chunk_size: DEFAULT_CHUNK_SIZE.to_string(),
        concurrency: DEFAULT_CONCURRENCY.to_string(),
        delay: None,
        randomize: false,
    }
}

#[test]
fn defaults_are_read() {
    let options = parse_options(default_args()).unwrap();
    assert_eq!(options.input, "file");
    assert_eq!(options.input_capacity, 8192);
    assert_eq!(options.config, FilestoreConfig { chunk_size: Some(1048576), concurrency: 1 });
    assert_eq!(options.delay_seconds, None);
    assert!(!options.randomize);
}

#[test]
fn delay_and_randomize_are_taken_over() {
    let mut args = default_args();
    args.delay = Some("30".to_string());
    args.randomize = true;
    let options = parse_options(args).unwrap();
    assert_eq!(options.delay_seconds, Some(30));
    assert!(options.randomize);
}

#[test]
fn the_first_bad_argument_decides() {
    let mut args = default_args();
    args.delay = Some("soon".to_string());
    assert_eq!(parse_options(args).unwrap_err(), NumberError::InvalidDigit);
    let mut args = default_args();
    args.delay = Some("soon".to_string());
    args.concurrency = "".to_string();
    assert_eq!(parse_options(args).unwrap_err(), NumberError::Empty);
    let mut args = default_args();
    args.concurrency = "".to_string();
    args.chunk_size = "18446744073709551616".to_string();
    assert_eq!(parse_options(args).unwrap_err(), NumberError::PosOverflow);
    let mut args = default_args();
    args.chunk_size = "18446744073709551616".to_string();
    args.input_capacity = "x".to_string();
    assert_eq!(parse_options(args).unwrap_err(), NumberError::InvalidDigit);
}

#[test]
fn a_prefix_counts_in_the_length() {
    let bytes = [7u8; 32];
    let plan = prefix_input(100, &bytes);
    assert_eq!(plan.len, 132);
    assert_eq!(&plan.prefix.unwrap()[..], &bytes[..]);
}

#[test]
fn random_input_is_longer_and_changes() {
    let a = plan_input(5, true);
    let b = plan_input(5, true);
    assert_eq!(a.len, 37);
    assert_eq!(a.prefix.as_ref().unwrap().len(), 32);
    assert_ne!(a.prefix, b.prefix);
    let plain = plan_input(5, false);
    assert_eq!(plain.len, 5);
    assert!(plain.prefix.is_none());
}

#[test]
fn a_stored_file_is_read_twice() {
    let stored: Result<u8, String> = Ok(1);
    assert_eq!(
        steps_after_store(stored, None),
        Ok((1, vec![RunStep::ReportCommitted, RunStep::Read, RunStep::Read]))
    );
    let stored: Result<u8, String> = Ok(2);
    assert_eq!(
        steps_after_store(stored, Some(9)),
        Ok((
            2,
            vec![RunStep::Sleep(9), RunStep::ReportCommitted, RunStep::Read, RunStep::Read]
        ))
    );
    let failed: Result<u8, String> = Err("full".to_string());
    assert_eq!(steps_after_store(failed, Some(9)), Err("full".to_string()));
}

#[test]
fn an_unknown_file_cannot_be_read() {
    assert_eq!(fetched_stream(Some(3)), Ok(3));
    let nothing: Option<u8> = None;
    assert_eq!(fetched_stream(nothing), Err(FetchError::NoStream));
    assert_eq!(FetchError::NoStream.message(), "Fetch failed: no stream");
}

#[test]
fn a_broken_stream_does_not_end_the_run() {
    let ok: Result<(), String> = Ok(());
    assert_eq!(read_outcome(&ok), Ok(()));
    let broken: Result<(), String> = Err("gone".to_string());
    assert_eq!(read_outcome(&broken), Ok(()));
}

fn blob_args(subcommand: &str) -> BlobArgs {
    BlobArgs {
        subcommand: subcommand.to_string(),
        manifold_bucket: Some("bucket".to_string()),
        shardmap: Some("map".to_string()),
        shard_count: Some("10".to_string()),
        myrouter_port: None,
        memcache: false,
        cachelib_size: None,
        read_qps: None,
        write_qps: None,
    }
}

#[test]
fn backends_are_named_by_subcommands() {
    match choose_backend(&blob_args("manifold")).unwrap() {
        Backend::Manifold { bucket, prefix } => {
            assert_eq!(bucket, "bucket");
            assert_eq!(prefix, "flat/benchmark_filestore.");
        }
        other => panic!("{:?}", other),
    }
    assert!(matches!(choose_backend(&blob_args("memory")), Ok(Backend::Memory)));
    match choose_backend(&blob_args("xdb")).unwrap() {
        Backend::Xdb { shardmap, access, read_connection, shard_count, readonly } => {
            assert_eq!(shardmap, "map");
            assert_eq!(access, XdbAccess::Raw);
            assert_eq!(read_connection, ReadConnectionType::Replica);
            assert_eq!(shard_count, 10);
            assert!(!readonly);
        }
        other => panic!("{:?}", other),
    }
}

#[test]
fn a_port_leads_through_myrouter() {
    let mut args = blob_args("xdb");
    args.myrouter_port = Some("3307".to_string());
    match choose_backend(&args).unwrap() {
        Backend::Xdb { access, .. } => assert_eq!(access, XdbAccess::Myrouter(3307)),
        other => panic!("{:?}", other),
    }
    args.myrouter_port = Some("65536".to_string());
    assert_eq!(choose_backend(&args).unwrap_err(), NumberError::PosOverflow);
    args.shard_count = Some("ten".to_string());
    assert_eq!(choose_backend(&args).unwrap_err(), NumberError::InvalidDigit);
}

#[test]
fn limits_are_not_zero() {
    let mut args = blob_args("memory");
    assert_eq!(
        choose_throttle(&args),
        Ok(ThrottleOptions { read_qps: None, write_qps: None })
    );
    args.read_qps = Some("5".to_string());
    args.write_qps = Some("6".to_string());
    assert_eq!(
        choose_throttle(&args),
        Ok(ThrottleOptions { read_qps: Some(5), write_qps: Some(6) })
    );
    args.write_qps = Some("0".to_string());
    assert_eq!(choose_throttle(&args), Err(NumberError::Zero));
    args.read_qps = Some("".to_string());
    assert_eq!(choose_throttle(&args), Err(NumberError::Empty));
}

fn layers(args: &BlobArgs) -> Result<Vec<String>, NumberError> {
    let mut stage = BlobStage::Start;
    let mut layers = vec![];
    loop {
        let (action, next) = next_action(args, stage)?;
        match action {
            BlobAction::Complete => return Ok(layers),
            action => layers.push(format!("{:?}", action)),
        }
        stage = next;
    }
}

#[test]
fn layers_lie_over_each_other_in_order() {
    let mut args = blob_args("memory");
    args.memcache = true;
    args.cachelib_size = Some("1000".to_string());
    args.read_qps = Some("5".to_string());
    assert_eq!(
        layers(&args).unwrap(),
        vec![
            "Open(Memory)",
            "Memcache",
            "Cachelib(1000)",
            "Throttle(ThrottleOptions { read_qps: Some(5), write_qps: None })",
        ]
    );
    args.memcache = false;
    args.cachelib_size = None;
    args.read_qps = None;
    assert_eq!(
        layers(&args).unwrap(),
        vec![
            "Open(Memory)",
            "Throttle(ThrottleOptions { read_qps: None, write_qps: None })",
        ]
    );
}

#[test]
fn arguments_are_read_when_their_turn_comes() {
    let mut args = blob_args("memory");
    args.cachelib_size = Some("big".to_string());
    args.read_qps = Some("".to_string());
    assert!(next_action(&args, BlobStage::Start).is_ok());
    assert_eq!(
        next_action(&args, BlobStage::Opened).unwrap_err(),
        NumberError::InvalidDigit
    );
    assert_eq!(next_action(&args, BlobStage::Cached).unwrap_err(), NumberError::Empty);
    assert!(next_action(&args, BlobStage::Throttled).is_ok());
}

#[test]
fn the_presence_pool_gets_a_twentieth() {
    assert_eq!(presence_pool_size(1000), 50);
    assert_eq!(presence_pool_size(19), 0);
}

#[test]
fn the_presence_pool_comes_before_the_blob_pool() {
    let pools: CachePools<char> = CachePools::Start;
    assert!(!pools.is_made());
    let request = pools.pool_request(1010).expect("a pool is missing");
    assert_eq!((request.name, request.size), ("presence", 50));
    let pools = pools.made('a');
    assert!(!pools.is_made());
    let request = pools.pool_request(950).expect("a pool is missing");
    assert_eq!((request.name, request.size), ("blobs", 950));
    let pools = pools.made('b');
    assert!(pools.is_made());
    assert!(pools.pool_request(7).is_none());
    match pools {
        CachePools::Made { presence_pool, blob_pool } => {
            assert_eq!((presence_pool, blob_pool), ('a', 'b'))
        }
        _ => panic!("a pool is missing"),
    }
}
