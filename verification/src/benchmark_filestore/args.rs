//! The arguments of the benchmark.

use vstd::prelude::*;

use crate::number::{
    decimal_value, int_text, is_number, law_reads_the_numbers_that_fit,
    law_written_numbers_read_back, parse_u64, parse_usize, read_number, unsigned_part, NumberError,
};

verus! {

/// The name of the benchmark.
pub const NAME: &'static str = "benchmark_filestore";

pub const CMD_MANIFOLD: &'static str = "manifold";

pub const CMD_MEMORY: &'static str = "memory";

pub const CMD_XDB: &'static str = "xdb";

pub const ARG_MANIFOLD_BUCKET: &'static str = "manifold-bucket";

pub const ARG_SHARDMAP: &'static str = "shardmap";

pub const ARG_SHARD_COUNT: &'static str = "shard-count";

pub const ARG_MYROUTER_PORT: &'static str = "myrouter-port";

pub const ARG_INPUT_CAPACITY: &'static str = "input-capacity";

pub const ARG_CHUNK_SIZE: &'static str = "chunk-size";

pub const ARG_CONCURRENCY: &'static str = "concurrency";

pub const ARG_MEMCACHE: &'static str = "memcache";

pub const ARG_CACHELIB_SIZE: &'static str = "cachelib-size";

pub const ARG_INPUT: &'static str = "input";

pub const ARG_DELAY: &'static str = "delay";

pub const ARG_RANDOMIZE: &'static str = "randomize";

pub const ARG_READ_QPS: &'static str = "read-qps";

pub const ARG_WRITE_QPS: &'static str = "write-qps";

/// How many bytes of input are read at once, where nothing else is asked for.
pub const DEFAULT_INPUT_CAPACITY: &'static str = "8192";

/// How large a chunk of a file is in the store, where nothing else is asked for.
pub const DEFAULT_CHUNK_SIZE: &'static str = "1048576";

/// How many chunks are written at the same time, where nothing else is asked for.
pub const DEFAULT_CONCURRENCY: &'static str = "1";

/// The arguments of a run, as they were written.
#[derive(Debug)]
pub struct BenchmarkArgs {
    pub input: String,
    pub input_capacity: String,
    pub chunk_size: String,
    pub concurrency: String,
    pub delay: Option<String>,
    pub randomize: bool,
}

/// How the filestore cuts and writes files.
#[derive(Clone, Copy, Debug, PartialEq, Eq)]
pub struct FilestoreConfig {
    pub chunk_size: Option<u64>,
    pub concurrency: usize,
}

/// What a run is to do.
#[derive(Debug)]
pub struct BenchmarkOptions {
    /// The file to store.
    pub input: String,
    pub input_capacity: usize,
    pub config: FilestoreConfig,
    /// How long to wait between writing and reading.
    pub delay_seconds: Option<u64>,
    /// Whether to put random bytes in front of the file.
    pub randomize: bool,
}

/// What an argument that may be left out says as a number.
pub open spec fn read_optional(text: Option<String>, max: int) -> Result<
    Option<int>,
    NumberError,
> {
    match text {
        Some(text) => match read_number(text@, max) {
            Ok(n) => Ok(Some(n)),
            Err(e) => Err(e),
        },
        None => Ok(None),
    }
}

/// What is wrong with the first argument that cannot be read, in the order in which they are
/// looked at: input capacity, chunk size, concurrency, delay.
pub open spec fn options_error(args: BenchmarkArgs) -> Option<NumberError> {
    let capacity = read_number(args.input_capacity@, usize::MAX as int);
    let chunk_size = read_number(args.chunk_size@, u64::MAX as int);
    let concurrency = read_number(args.concurrency@, usize::MAX as int);
    let delay = read_optional(args.delay, u64::MAX as int);
    if capacity is Err {
        Some(capacity->Err_0)
    } else if chunk_size is Err {
        Some(chunk_size->Err_0)
    } else if concurrency is Err {
        Some(concurrency->Err_0)
    } else if delay is Err {
        Some(delay->Err_0)
    } else {
        None
    }
}

/// Whether `options` is what `args` ask for.
pub open spec fn options_follow(options: BenchmarkOptions, args: BenchmarkArgs) -> bool {
    &&& options.input == args.input
    &&& read_number(args.input_capacity@, usize::MAX as int) == Ok::<int, NumberError>(
        options.input_capacity as int,
    )
    &&& options.config.chunk_size is Some
    &&& read_number(args.chunk_size@, u64::MAX as int) == Ok::<int, NumberError>(
        options.config.chunk_size->0 as int,
    )
    &&& read_number(args.concurrency@, usize::MAX as int) == Ok::<int, NumberError>(
        options.config.concurrency as int,
    )
    &&& read_optional(args.delay, u64::MAX as int) == Ok::<Option<int>, NumberError>(
        match options.delay_seconds {
            Some(seconds) => Some(seconds as int),
            None => None,
        },
    )
    &&& options.randomize == args.randomize
}

/// Reads the arguments of a run.
pub fn parse_options(args: BenchmarkArgs) -> (res: Result<BenchmarkOptions, NumberError>)
    ensures
        match res {
            Ok(options) => options_error(args) is None && options_follow(options, args),
            Err(e) => options_error(args) == Some(e),
        },
        res matches Ok(options) ==> {
            &&& options.input@ == args.input@
            &&& options.randomize == args.randomize
            &&& options.input_capacity == decimal_value(unsigned_part(args.input_capacity@))
            &&& options.config.chunk_size is Some
            &&& options.config.chunk_size->0 == decimal_value(unsigned_part(args.chunk_size@))
            &&& options.config.concurrency == decimal_value(unsigned_part(args.concurrency@))
            &&& options.delay_seconds is Some <==> args.delay is Some
            &&& options.delay_seconds is Some ==> options.delay_seconds->0 == decimal_value(
                unsigned_part(args.delay->0@),
            )
        },
        res is Ok <==> {
            &&& read_number(args.input_capacity@, usize::MAX as int) is Ok
            &&& read_number(args.chunk_size@, u64::MAX as int) is Ok
            &&& read_number(args.concurrency@, usize::MAX as int) is Ok
            &&& args.delay is Some ==> read_number(args.delay->0@, u64::MAX as int) is Ok
        },
{
    proof {
        law_first_bad_argument_decides(args);
        law_reads_the_numbers_that_fit(args.input_capacity@, usize::MAX as int);
        law_reads_the_numbers_that_fit(args.chunk_size@, u64::MAX as int);
        law_reads_the_numbers_that_fit(args.concurrency@, usize::MAX as int);
        if args.delay is Some {
            law_reads_the_numbers_that_fit(args.delay->0@, u64::MAX as int);
        }
    }
    let input_capacity: usize = match parse_usize(args.input_capacity.as_str()) {
        Ok(n) => n,
        Err(e) => {
            return Err(e);
        },
    };
    let chunk_size: u64 = match parse_u64(args.chunk_size.as_str()) {
        Ok(n) => n,
        Err(e) => {
            return Err(e);
        },
    };
    let concurrency: usize = match parse_usize(args.concurrency.as_str()) {
        Ok(n) => n,
        Err(e) => {
            return Err(e);
        },
    };
    let delay_seconds: Option<u64> = match &args.delay {
        Some(text) => match parse_u64(text.as_str()) {
            Ok(n) => Some(n),
            Err(e) => {
                return Err(e);
            },
        },
        None => None,
    };
    Ok(
        BenchmarkOptions {
            input: args.input,
            input_capacity,
            config: FilestoreConfig { chunk_size: Some(chunk_size), concurrency },
            delay_seconds,
            randomize: args.randomize,
        },
    )
}

/// An argument that was left out says nothing, and one that is there says what its text says.
pub proof fn law_a_missing_argument_says_nothing(text: String, max: int)
    ensures
        read_optional(None, max) == Ok::<Option<int>, NumberError>(None),
        read_number(text@, max) matches Ok(n) ==> read_optional(Some(text), max) == Ok::<
            Option<int>,
            NumberError,
        >(Some(n)),
        read_number(text@, max) matches Err(e) ==> read_optional(Some(text), max) == Err::<
            Option<int>,
            NumberError,
        >(e),
{
}

/// Options hold the numbers that the digits of the arguments denote in base ten, and the rest
/// as it was given.
pub proof fn law_options_hold_the_numbers_denoted(options: BenchmarkOptions, args: BenchmarkArgs)
    requires
        options_follow(options, args),
    ensures
        options.input@ == args.input@,
        options.randomize == args.randomize,
        is_number(args.input_capacity@),
        options.input_capacity == decimal_value(unsigned_part(args.input_capacity@)),
        is_number(args.chunk_size@),
        options.config.chunk_size is Some,
        options.config.chunk_size->0 == decimal_value(unsigned_part(args.chunk_size@)),
        is_number(args.concurrency@),
        options.config.concurrency == decimal_value(unsigned_part(args.concurrency@)),
        options.delay_seconds is Some <==> args.delay is Some,
        options.delay_seconds matches Some(seconds) ==> is_number(args.delay->0@) && seconds
            == decimal_value(unsigned_part(args.delay->0@)),
{
    law_reads_the_numbers_that_fit(args.input_capacity@, usize::MAX as int);
    law_reads_the_numbers_that_fit(args.chunk_size@, u64::MAX as int);
    law_reads_the_numbers_that_fit(args.concurrency@, usize::MAX as int);
    if args.delay is Some {
        law_reads_the_numbers_that_fit(args.delay->0@, u64::MAX as int);
    }
}

/// Numbers that are written into the arguments are read back into the options.
pub proof fn law_written_arguments_read_back(
    options: BenchmarkOptions,
    args: BenchmarkArgs,
    capacity: usize,
    chunk_size: u64,
    concurrency: usize,
    delay: u64,
)
    requires
        args.input_capacity@ == int_text(capacity as int),
        args.chunk_size@ == int_text(chunk_size as int),
        args.concurrency@ == int_text(concurrency as int),
        args.delay is Some ==> args.delay->0@ == int_text(delay as int),
    ensures
        options_error(args) is None,
        options_follow(options, args) ==> {
            &&& options.input_capacity == capacity
            &&& options.config.chunk_size == Some(chunk_size)
            &&& options.config.concurrency == concurrency
            &&& options.delay_seconds == if args.delay is Some {
                Some(delay)
            } else {
                None
            }
        },
{
    law_written_numbers_read_back(capacity as nat, usize::MAX as int);
    law_written_numbers_read_back(chunk_size as nat, u64::MAX as int);
    law_written_numbers_read_back(concurrency as nat, usize::MAX as int);
    law_written_numbers_read_back(delay as nat, u64::MAX as int);
}

/// Arguments are refused exactly if one of the numbers cannot be read, and for the first such
/// number: of input capacity, chunk size, concurrency and delay, in this order.
pub proof fn law_first_bad_argument_decides(args: BenchmarkArgs)
    ensures
        ({
            let capacity = read_number(args.input_capacity@, usize::MAX as int);
            let chunk_size = read_number(args.chunk_size@, u64::MAX as int);
            let concurrency = read_number(args.concurrency@, usize::MAX as int);
            &&& capacity matches Err(e) ==> options_error(args) == Some(e)
            &&& capacity is Ok && chunk_size is Err ==> options_error(args) == Some(
                chunk_size->Err_0,
            )
            &&& capacity is Ok && chunk_size is Ok && concurrency is Err ==> options_error(args)
                == Some(concurrency->Err_0)
            &&& capacity is Ok && chunk_size is Ok && concurrency is Ok && args.delay is None
                ==> options_error(args) is None
            &&& capacity is Ok && chunk_size is Ok && concurrency is Ok && args.delay is Some && (
            read_number(args.delay->0@, u64::MAX as int) is Ok) ==> options_error(args) is None
            &&& capacity is Ok && chunk_size is Ok && concurrency is Ok && args.delay is Some && (
            read_number(args.delay->0@, u64::MAX as int) is Err) ==> options_error(args) == Some(
                read_number(args.delay->0@, u64::MAX as int)->Err_0,
            )
        }),
{
}

} // verus!
