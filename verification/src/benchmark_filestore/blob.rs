//! The blobstore that the benchmark writes to: a backend, and the layers over it.

use vstd::prelude::*;

use crate::number::{
    decimal_value, is_number, law_only_zero_is_refused_as_zero, law_reads_the_numbers_that_fit,
    parse_nonzero_u32, parse_u16, parse_usize, read_nonzero, read_number, unsigned_part,
    NumberError,
};
use crate::sql_ext::facebook::ReadConnectionType;
use super::args::{read_optional, CMD_MANIFOLD, CMD_MEMORY, CMD_XDB, NAME};

verus! {

/// The pool of the cache that remembers which blobs there are.
pub const PRESENCE_POOL: &'static str = "presence";

/// The pool of the cache that holds blobs.
pub const BLOB_POOL: &'static str = "blobs";

/// The arguments that say where blobs go, as they were written.
#[derive(Debug)]
pub struct BlobArgs {
    /// The name of the backend.
    pub subcommand: String,
    pub manifold_bucket: Option<String>,
    pub shardmap: Option<String>,
    pub shard_count: Option<String>,
    pub myrouter_port: Option<String>,
    pub memcache: bool,
    pub cachelib_size: Option<String>,
    pub read_qps: Option<String>,
    pub write_qps: Option<String>,
}

/// How XDB is reached.
#[derive(Clone, Copy, Debug, PartialEq, Eq, Structural)]
pub enum XdbAccess {
    /// Through myrouter at this port.
    Myrouter(u16),
    /// Directly.
    Raw,
}

/// Where blobs are kept.
#[derive(Debug)]
pub enum Backend {
    Manifold { bucket: String, prefix: String },
    Memory,
    Xdb {
        shardmap: String,
        access: XdbAccess,
        read_connection: ReadConnectionType,
        shard_count: usize,
        readonly: bool,
    },
}

/// How many reads and writes are let through per second; without a number, all.
#[derive(Clone, Copy, Debug, PartialEq, Eq)]
pub struct ThrottleOptions {
    pub read_qps: Option<u32>,
    pub write_qps: Option<u32>,
}

/// Whether the arguments name a backend and hold what that backend cannot do without.
pub open spec fn names_backend(args: BlobArgs) -> bool {
    if args.subcommand@ == CMD_MANIFOLD@ {
        args.manifold_bucket is Some
    } else if args.subcommand@ == CMD_MEMORY@ {
        true
    } else {
        args.subcommand@ == CMD_XDB@ && args.shardmap is Some && args.shard_count is Some
    }
}

/// What is wrong with the numbers that XDB needs, the number of shards before the port.
pub open spec fn xdb_error(args: BlobArgs) -> Option<NumberError> {
    let count = read_number(args.shard_count->0@, usize::MAX as int);
    let port = read_optional(args.myrouter_port, u16::MAX as int);
    if count is Err {
        Some(count->Err_0)
    } else if port is Err {
        Some(port->Err_0)
    } else {
        None
    }
}

/// Whether `backend` is the one that the arguments name.
pub open spec fn backend_follows(backend: Backend, args: BlobArgs) -> bool {
    if args.subcommand@ == CMD_MANIFOLD@ {
        &&& backend matches Backend::Manifold { bucket, prefix }
        &&& Some(bucket) == args.manifold_bucket
        &&& prefix@ == "flat/"@ + NAME@ + "."@
    } else if args.subcommand@ == CMD_MEMORY@ {
        backend is Memory
    } else {
        &&& backend matches Backend::Xdb {
            shardmap,
            access,
            read_connection,
            shard_count,
            readonly,
        }
        &&& Some(shardmap) == args.shardmap
        &&& read_optional(args.myrouter_port, u16::MAX as int) == Ok::<Option<int>, NumberError>(
            match access {
                XdbAccess::Myrouter(port) => Some(port as int),
                XdbAccess::Raw => None,
            },
        )
        &&& read_connection == ReadConnectionType::Replica
        &&& read_number(args.shard_count->0@, usize::MAX as int) == Ok::<int, NumberError>(
            shard_count as int,
        )
        &&& !readonly
    }
}

/// What stops the choice of a backend.
pub open spec fn backend_error(args: BlobArgs) -> Option<NumberError> {
    if args.subcommand@ == CMD_MANIFOLD@ || args.subcommand@ == CMD_MEMORY@ {
        None
    } else {
        xdb_error(args)
    }
}

/// Whether `name` is `command`.
fn is_command(name: &String, command: &str) -> (res: bool)
    ensures
        res == (name@ == command@),
{
    let command: String = command.to_string();
    *name == command
}

/// The backend that the arguments name.
pub fn choose_backend(args: &BlobArgs) -> (res: Result<Backend, NumberError>)
    requires
        names_backend(*args),
    ensures
        match res {
            Ok(backend) => backend_error(*args) is None && backend_follows(backend, *args),
            Err(e) => backend_error(*args) == Some(e),
        },
{
    if is_command(&args.subcommand, CMD_MANIFOLD) {
        let bucket: String = args.manifold_bucket.as_ref().unwrap().clone();
        let prefix: String = "flat/".to_string().concat(NAME).concat(".");
        Ok(Backend::Manifold { bucket, prefix })
    } else if is_command(&args.subcommand, CMD_MEMORY) {
        Ok(Backend::Memory)
    } else {
        let shardmap: String = args.shardmap.as_ref().unwrap().clone();
        let shard_count: usize = match parse_usize(args.shard_count.as_ref().unwrap().as_str()) {
            Ok(n) => n,
            Err(e) => {
                return Err(e);
            },
        };
        let access: XdbAccess = match &args.myrouter_port {
            Some(port) => match parse_u16(port.as_str()) {
                Ok(n) => XdbAccess::Myrouter(n),
                Err(e) => {
                    return Err(e);
                },
            },
            None => XdbAccess::Raw,
        };
        Ok(
            Backend::Xdb {
                shardmap,
                access,
                read_connection: ReadConnectionType::Replica,
                shard_count,
                readonly: false,
            },
        )
    }
}

/// The size of the presence pool in a cache with `available` bytes to give away; the blob
/// pool gets what is available after that.
pub fn presence_pool_size(available: usize) -> (res: usize)
    ensures
        res == available as int / 20,
{
    available / 20
}

/// How far the pools of the cache have been made. `P` is the type of pools.
#[derive(Debug)]
pub enum CachePools<P> {
    /// There is none yet.
    Start,
    /// The presence pool is there.
    PresenceMade(P),
    /// Both pools are there, each for its own use.
    Made { presence_pool: P, blob_pool: P },
}

/// A pool to be made.
#[derive(Clone, Copy, Debug, PartialEq, Eq)]
pub struct PoolRequest {
    pub name: &'static str,
    pub size: usize,
}

impl<P> CachePools<P> {
    /// The name and the size of the pool to be made next, in a cache that has `available` bytes
    /// to give away: first the presence pool with a twentieth of that, then the blob pool with
    /// all that is left.
    pub open spec fn wanted(&self, available: usize) -> Option<(Seq<char>, int)> {
        match self {
            CachePools::Start => Some((PRESENCE_POOL@, available as int / 20)),
            CachePools::PresenceMade(_) => Some((BLOB_POOL@, available as int)),
            CachePools::Made { .. } => None,
        }
    }

    /// After the pool that was wanted has been made.
    pub open spec fn with(self, pool: P) -> CachePools<P> {
        match self {
            CachePools::Start => CachePools::PresenceMade(pool),
            CachePools::PresenceMade(presence_pool) => CachePools::Made {
                presence_pool,
                blob_pool: pool,
            },
            CachePools::Made { .. } => self,
        }
    }

    /// Whether both pools are there.
    pub fn is_made(&self) -> (res: bool)
        ensures
            res == (self is Made),
    {
        match self {
            CachePools::Made { .. } => true,
            _ => false,
        }
    }

    /// The pool to be made next, in a cache that has `available` bytes to give away; `None` if
    /// both are there.
    pub fn pool_request(&self, available: usize) -> (res: Option<PoolRequest>)
        ensures
            match res {
                Some(request) => self.wanted(available) == Some(
                    (request.name@, request.size as int),
                ),
                None => self.wanted(available) is None,
            },
            self is Start ==> res is Some && res->0.name@ == "presence"@ && res->0.size
                == available as int / 20,
            self is PresenceMade ==> res is Some && res->0.name@ == "blobs"@ && res->0.size
                == available,
            self is Made ==> res is None,
    {
        match self {
            CachePools::Start => Some(
                PoolRequest { name: PRESENCE_POOL, size: presence_pool_size(available) },
            ),
            CachePools::PresenceMade(_) => Some(PoolRequest { name: BLOB_POOL, size: available }),
            CachePools::Made { .. } => None,
        }
    }

    /// Takes the pool that was asked for.
    pub fn made(self, pool: P) -> (pools: CachePools<P>)
        requires
            !(self is Made),
        ensures
            pools == self.with(pool),
            self is Start ==> pools == CachePools::PresenceMade(pool),
            self matches CachePools::PresenceMade(presence_pool) ==> pools == (CachePools::Made {
                presence_pool,
                blob_pool: pool,
            }),
    {
        match self {
            CachePools::Start => CachePools::PresenceMade(pool),
            CachePools::PresenceMade(presence_pool) => CachePools::Made {
                presence_pool,
                blob_pool: pool,
            },
            pools => pools,
        }
    }
}

/// In a cache that has `first` bytes to give away, and `second` once the first pool is made, the
/// presence pool is made first with a twentieth of `first`, then the blob pool with all of
/// `second`; the pool made first serves for presence and the other one for blobs.
pub proof fn law_pools_are_made_in_order<P>(first: usize, second: usize, a: P, b: P)
    ensures
        ({
            let start = CachePools::<P>::Start;
            &&& start.wanted(first) == Some(("presence"@, first as int / 20))
            &&& start.with(a).wanted(second) == Some(("blobs"@, second as int))
            &&& start.with(a).with(b) == (CachePools::Made { presence_pool: a, blob_pool: b })
        }),
{
}

/// What an argument that may be left out says as a number that is not zero.
pub open spec fn read_optional_nonzero(text: Option<String>) -> Result<Option<int>, NumberError> {
    match text {
        Some(text) => match read_nonzero(text@, u32::MAX as int) {
            Ok(n) => Ok(Some(n)),
            Err(e) => Err(e),
        },
        None => Ok(None),
    }
}

/// A limit as a number.
pub open spec fn limit(qps: Option<u32>) -> Option<int> {
    match qps {
        Some(n) => Some(n as int),
        None => None,
    }
}

fn parse_limit(text: &Option<String>) -> (res: Result<Option<u32>, NumberError>)
    ensures
        match res {
            Ok(qps) => read_optional_nonzero(*text) == Ok::<Option<int>, NumberError>(limit(qps)),
            Err(e) => read_optional_nonzero(*text) == Err::<Option<int>, NumberError>(e),
        },
{
    match text {
        Some(text) => match parse_nonzero_u32(text.as_str()) {
            Ok(n) => Ok(Some(n)),
            Err(e) => Err(e),
        },
        None => Ok(None),
    }
}

/// What is wrong with the limits, the one on reads before the one on writes.
pub open spec fn throttle_error(args: BlobArgs) -> Option<NumberError> {
    let read = read_optional_nonzero(args.read_qps);
    let write = read_optional_nonzero(args.write_qps);
    if read is Err {
        Some(read->Err_0)
    } else if write is Err {
        Some(write->Err_0)
    } else {
        None
    }
}

/// Whether `options` holds the limits that the arguments ask for.
pub open spec fn throttle_follows(options: ThrottleOptions, args: BlobArgs) -> bool {
    &&& read_optional_nonzero(args.read_qps) == Ok::<Option<int>, NumberError>(
        limit(options.read_qps),
    )
    &&& read_optional_nonzero(args.write_qps) == Ok::<Option<int>, NumberError>(
        limit(options.write_qps),
    )
}

/// The limits that the arguments ask for.
pub fn choose_throttle(args: &BlobArgs) -> (res: Result<ThrottleOptions, NumberError>)
    ensures
        match res {
            Ok(options) => throttle_error(*args) is None && throttle_follows(options, *args),
            Err(e) => throttle_error(*args) == Some(e),
        },
{
    let read_qps: Option<u32> = match parse_limit(&args.read_qps) {
        Ok(qps) => qps,
        Err(e) => {
            return Err(e);
        },
    };
    let write_qps: Option<u32> = match parse_limit(&args.write_qps) {
        Ok(qps) => qps,
        Err(e) => {
            return Err(e);
        },
    };
    Ok(ThrottleOptions { read_qps, write_qps })
}

/// How far the blobstore has been built.
#[derive(Clone, Copy, Debug, PartialEq, Eq, Structural)]
pub enum BlobStage {
    /// There is nothing yet.
    Start,
    /// The backend is there.
    Opened,
    /// Memcache lies over it, if it is to.
    Memcached,
    /// A cache in memory lies over that, if it is to.
    Cached,
    /// The throttle lies over all: the blobstore is complete.
    Throttled,
}

/// What is to be done next to build the blobstore.
#[derive(Debug)]
pub enum BlobAction {
    /// Open the backend.
    Open(Backend),
    /// Lay memcache over what is there.
    Memcache,
    /// Set up a cache of that many bytes and lay it over what is there.
    Cachelib(usize),
    /// Lay a throttle over what is there.
    Throttle(ThrottleOptions),
    /// Nothing: the blobstore is complete.
    Complete,
}

/// The stage whose turn it is at `stage`: layers that are not asked for are passed over.
pub open spec fn stage_in_turn(args: BlobArgs, stage: BlobStage) -> BlobStage {
    match stage {
        BlobStage::Start => BlobStage::Start,
        BlobStage::Opened => if args.memcache {
            BlobStage::Opened
        } else if args.cachelib_size is Some {
            BlobStage::Memcached
        } else {
            BlobStage::Cached
        },
        BlobStage::Memcached => if args.cachelib_size is Some {
            BlobStage::Memcached
        } else {
            BlobStage::Cached
        },
        BlobStage::Cached => BlobStage::Cached,
        BlobStage::Throttled => BlobStage::Throttled,
    }
}

/// The stage that comes after the action of `stage`.
pub open spec fn stage_after(stage: BlobStage) -> BlobStage {
    match stage {
        BlobStage::Start => BlobStage::Opened,
        BlobStage::Opened => BlobStage::Memcached,
        BlobStage::Memcached => BlobStage::Cached,
        BlobStage::Cached => BlobStage::Throttled,
        BlobStage::Throttled => BlobStage::Throttled,
    }
}

/// Whether `action` is what is to be done when it is the turn of `stage`.
pub open spec fn action_follows(action: BlobAction, args: BlobArgs, stage: BlobStage) -> bool {
    match stage {
        BlobStage::Start => {
            &&& action matches BlobAction::Open(backend)
            &&& backend_follows(backend, args)
        },
        BlobStage::Opened => action is Memcache,
        BlobStage::Memcached => {
            &&& action matches BlobAction::Cachelib(size)
            &&& read_optional(args.cachelib_size, usize::MAX as int) == Ok::<
                Option<int>,
                NumberError,
            >(Some(size as int))
        },
        BlobStage::Cached => {
            &&& action matches BlobAction::Throttle(options)
            &&& throttle_follows(options, args)
        },
        BlobStage::Throttled => action is Complete,
    }
}

/// What is wrong with the arguments that are needed when it is the turn of `stage`.
pub open spec fn action_error(args: BlobArgs, stage: BlobStage) -> Option<NumberError> {
    match stage {
        BlobStage::Start => backend_error(args),
        BlobStage::Opened => None,
        BlobStage::Memcached => match read_optional(args.cachelib_size, usize::MAX as int) {
            Ok(_) => None,
            Err(e) => Some(e),
        },
        BlobStage::Cached => throttle_error(args),
        BlobStage::Throttled => None,
    }
}

/// What is to be done at `stage`, and the stage that follows once it is done. Arguments are
/// read only when their turn comes.
pub fn next_action(args: &BlobArgs, stage: BlobStage) -> (res: Result<
    (BlobAction, BlobStage),
    NumberError,
>)
    requires
        names_backend(*args),
    ensures
        ({
            let turn = stage_in_turn(*args, stage);
            match res {
                Ok((action, next)) => {
                    &&& action_error(*args, turn) is None
                    &&& action_follows(action, *args, turn)
                    &&& next == stage_after(turn)
                },
                Err(e) => action_error(*args, turn) == Some(e),
            }
        }),
        res matches Ok((action, next)) ==> may_do(*args, stage, action, next),
        stage == BlobStage::Start ==> {
            &&& res is Ok <==> backend_error(*args) is None
            &&& res is Err ==> backend_error(*args) == Some(res->Err_0)
            &&& res is Ok ==> res->Ok_0.0 is Open && backend_follows(res->Ok_0.0->Open_0, *args)
                && res->Ok_0.1 == BlobStage::Opened
        },
        stage == BlobStage::Opened && args.memcache ==> res is Ok && res->Ok_0.0 is Memcache
            && res->Ok_0.1 == BlobStage::Memcached,
        (stage == BlobStage::Opened && !args.memcache || stage == BlobStage::Memcached)
            && args.cachelib_size is Some ==> {
            let size = read_number(args.cachelib_size->0@, usize::MAX as int);
            &&& res is Ok <==> size is Ok
            &&& res is Err ==> size is Err && res->Err_0 == size->Err_0
            &&& res is Ok ==> res->Ok_0.0 is Cachelib && res->Ok_0.0->Cachelib_0 == size->Ok_0
                && res->Ok_0.1 == BlobStage::Cached
        },
        (stage == BlobStage::Opened && !args.memcache || stage == BlobStage::Memcached)
            && args.cachelib_size is None || stage == BlobStage::Cached ==> {
            &&& res is Ok <==> throttle_error(*args) is None
            &&& res is Err ==> throttle_error(*args) == Some(res->Err_0)
            &&& res is Ok ==> res->Ok_0.0 is Throttle && throttle_follows(
                res->Ok_0.0->Throttle_0,
                *args,
            ) && res->Ok_0.1 == BlobStage::Throttled
        },
        stage == BlobStage::Throttled ==> res is Ok && res->Ok_0.0 is Complete && res->Ok_0.1
            == BlobStage::Throttled,
{
    let mut turn: BlobStage = stage;
    if turn == BlobStage::Opened && !args.memcache {
        turn = BlobStage::Memcached;
    }
    if turn == BlobStage::Memcached && args.cachelib_size.is_none() {
        turn = BlobStage::Cached;
    }
    match turn {
        BlobStage::Start => match choose_backend(args) {
            Ok(backend) => Ok((BlobAction::Open(backend), BlobStage::Opened)),
            Err(e) => Err(e),
        },
        BlobStage::Opened => Ok((BlobAction::Memcache, BlobStage::Memcached)),
        BlobStage::Memcached => match parse_usize(args.cachelib_size.as_ref().unwrap().as_str()) {
            Ok(size) => Ok((BlobAction::Cachelib(size), BlobStage::Cached)),
            Err(e) => Err(e),
        },
        BlobStage::Cached => match choose_throttle(args) {
            Ok(options) => Ok((BlobAction::Throttle(options), BlobStage::Throttled)),
            Err(e) => Err(e),
        },
        BlobStage::Throttled => Ok((BlobAction::Complete, BlobStage::Throttled)),
    }
}

/// The stages whose turn comes from `stage` on, in order.
pub open spec fn stages_from(args: BlobArgs, stage: BlobStage, steps: nat) -> Seq<BlobStage>
    decreases steps,
{
    if steps == 0 || stage == BlobStage::Throttled {
        Seq::empty()
    } else {
        let turn = stage_in_turn(args, stage);
        seq![turn] + stages_from(args, stage_after(turn), (steps - 1) as nat)
    }
}

/// A blobstore is built from the inside out: the backend, then memcache if it is asked for,
/// then the cache in memory if it is asked for, then the throttle, which is always there and
/// lies over everything else.
pub proof fn law_layers_in_order(args: BlobArgs)
    ensures
        stages_from(args, BlobStage::Start, 4) == seq![BlobStage::Start] + (if args.memcache {
            seq![BlobStage::Opened]
        } else {
            Seq::empty()
        }) + (if args.cachelib_size is Some {
            seq![BlobStage::Memcached]
        } else {
            Seq::empty()
        }) + seq![BlobStage::Cached],
{
    reveal_with_fuel(stages_from, 5);
    let stages = stages_from(args, BlobStage::Start, 4);
    if args.memcache {
        if args.cachelib_size is Some {
            assert(stages =~= seq![
                BlobStage::Start,
                BlobStage::Opened,
                BlobStage::Memcached,
                BlobStage::Cached,
            ]);
        } else {
            assert(stages =~= seq![BlobStage::Start, BlobStage::Opened, BlobStage::Cached]);
        }
    } else {
        if args.cachelib_size is Some {
            assert(stages =~= seq![BlobStage::Start, BlobStage::Memcached, BlobStage::Cached]);
        } else {
            assert(stages =~= seq![BlobStage::Start, BlobStage::Cached]);
        }
    }
}

/// Whether `action` may be what is done at `stage`, with `next` as the stage that follows.
pub open spec fn may_do(
    args: BlobArgs,
    stage: BlobStage,
    action: BlobAction,
    next: BlobStage,
) -> bool {
    let turn = stage_in_turn(args, stage);
    &&& action_error(args, turn) is None
    &&& action_follows(action, args, turn)
    &&& next == stage_after(turn)
}

/// Whether `actions` build a blobstore, through the stages `stages` from the first to the last.
pub open spec fn builds(args: BlobArgs, actions: Seq<BlobAction>, stages: Seq<BlobStage>) -> bool {
    &&& stages.len() == actions.len() + 1
    &&& stages[0] == BlobStage::Start
    &&& stages.last() == BlobStage::Throttled
    &&& forall|i: int|
        0 <= i < actions.len() ==> #[trigger] stages[i] != BlobStage::Throttled && may_do(
            args,
            stages[i],
            actions[i],
            stages[i + 1],
        )
}

/// What is done to build a blobstore, from the first action to the last: the backend is opened;
/// memcache is laid over it exactly if it is asked for; a cache in memory is laid over that
/// exactly if a size is given, whether there is memcache or not, and it has the size that the
/// digits denote; and a throttle is laid over all.
pub proof fn law_what_is_done_to_build(
    args: BlobArgs,
    actions: Seq<BlobAction>,
    stages: Seq<BlobStage>,
)
    requires
        builds(args, actions, stages),
    ensures
        ({
            let memcache: int = if args.memcache { 1 } else { 0 };
            let cachelib: int = if args.cachelib_size is Some { 1 } else { 0 };
            &&& actions.len() == 2 + memcache + cachelib
            &&& actions[0] is Open
            &&& backend_follows(actions[0]->Open_0, args)
            &&& args.memcache ==> actions[1] is Memcache
            &&& args.cachelib_size matches Some(text) ==> {
                &&& actions[1 + memcache] is Cachelib
                &&& is_number(text@)
                &&& actions[1 + memcache]->Cachelib_0 == decimal_value(unsigned_part(text@))
            }
            &&& actions[1 + memcache + cachelib] is Throttle
            &&& throttle_follows(actions[1 + memcache + cachelib]->Throttle_0, args)
        }),
        forall|i: int|
            0 <= i < actions.len() ==> ((#[trigger] actions[i]) is Memcache <==> args.memcache && i
                == 1),
        forall|i: int|
            0 <= i < actions.len() ==> ((#[trigger] actions[i]) is Cachelib
                <==> args.cachelib_size is Some && i == actions.len() - 2),
{
    assert(stages[0] != BlobStage::Throttled);
    assert(actions.len() > 0) by {
        if actions.len() == 0 {
            assert(stages.last() == stages[0]);
        }
    }
    assert(stages[1] == BlobStage::Opened);
    let n = actions.len() as int;
    assert(stages[n] == BlobStage::Throttled);
    assert(n > 1);
    assert(may_do(args, stages[1], actions[1], stages[2]));
    if args.cachelib_size is Some {
        law_reads_the_numbers_that_fit(args.cachelib_size->0@, usize::MAX as int);
    }
    if n > 2 {
        assert(stages[2] != BlobStage::Throttled);
        assert(may_do(args, stages[2], actions[2], stages[3]));
        if n > 3 {
            assert(stages[3] != BlobStage::Throttled);
            assert(may_do(args, stages[3], actions[3], stages[4]));
            if n > 4 {
                assert(stages[4] != BlobStage::Throttled);
            }
        }
    }
}

/// Memcache and the cache in memory are asked for independently: what is said about one has no
/// part in whether there is the other.
pub proof fn law_caches_do_not_depend_on_each_other(
    a: BlobArgs,
    b: BlobArgs,
    actions_a: Seq<BlobAction>,
    actions_b: Seq<BlobAction>,
    stages_a: Seq<BlobStage>,
    stages_b: Seq<BlobStage>,
)
    requires
        builds(a, actions_a, stages_a),
        builds(b, actions_b, stages_b),
    ensures
        a.memcache == b.memcache ==> (actions_a[1] is Memcache <==> actions_b[1] is Memcache),
        a.cachelib_size == b.cachelib_size ==> {
            let x = actions_a[actions_a.len() - 2];
            let y = actions_b[actions_b.len() - 2];
            &&& x is Cachelib <==> y is Cachelib
            &&& x is Cachelib ==> x == y
        },
{
    law_what_is_done_to_build(a, actions_a, stages_a);
    law_what_is_done_to_build(b, actions_b, stages_b);
}

/// Which backend is opened, by the name that was given, and with what: all that was given for
/// it, numbers as their digits denote them. Blobs in Manifold stand under the name of the
/// benchmark; XDB is read from a replica, written to, and reached through myrouter exactly if a
/// port is given.
pub proof fn law_the_named_backend_is_opened(args: BlobArgs, backend: Backend)
    requires
        names_backend(args),
        backend_error(args) is None,
        backend_follows(backend, args),
    ensures
        args.subcommand@ == "manifold"@ <==> backend is Manifold,
        args.subcommand@ == "memory"@ <==> backend is Memory,
        args.subcommand@ == "xdb"@ <==> backend is Xdb,
        backend matches Backend::Manifold { bucket, prefix } ==> {
            &&& bucket@ == args.manifold_bucket->0@
            &&& prefix@ == "flat/benchmark_filestore."@
        },
        backend matches Backend::Xdb {
            shardmap,
            access,
            read_connection,
            shard_count,
            readonly,
        } ==> {
            &&& shardmap@ == args.shardmap->0@
            &&& is_number(args.shard_count->0@)
            &&& shard_count == decimal_value(unsigned_part(args.shard_count->0@))
            &&& read_connection is Replica
            &&& !readonly
            &&& access is Raw <==> args.myrouter_port is None
            &&& access matches XdbAccess::Myrouter(port) ==> is_number(args.myrouter_port->0@)
                && port == decimal_value(unsigned_part(args.myrouter_port->0@))
        },
{
    reveal_strlit("manifold");
    reveal_strlit("memory");
    reveal_strlit("xdb");
    reveal_strlit("flat/");
    reveal_strlit("benchmark_filestore");
    reveal_strlit(".");
    reveal_strlit("flat/benchmark_filestore.");
    assert("flat/"@ + "benchmark_filestore"@ + "."@ =~= "flat/benchmark_filestore."@);
    assert("manifold"@.len() == 8 && "memory"@.len() == 6 && "xdb"@.len() == 3);
    if args.shard_count is Some {
        law_reads_the_numbers_that_fit(args.shard_count->0@, usize::MAX as int);
    }
    if args.myrouter_port is Some {
        law_reads_the_numbers_that_fit(args.myrouter_port->0@, u16::MAX as int);
    }
}

/// What stops the choice of a backend: for XDB the number of shards if it cannot be read, else
/// the port if one is given and cannot be read; for the others nothing.
pub proof fn law_what_stops_a_backend(args: BlobArgs)
    requires
        names_backend(args),
    ensures
        args.subcommand@ == "manifold"@ || args.subcommand@ == "memory"@ ==> backend_error(
            args,
        ) is None,
        args.subcommand@ == "xdb"@ ==> {
            let count = read_number(args.shard_count->0@, usize::MAX as int);
            let port = read_number(args.myrouter_port->0@, u16::MAX as int);
            &&& count is Err ==> backend_error(args) == Some(count->Err_0)
            &&& count is Ok && args.myrouter_port is Some && port is Err ==> backend_error(args)
                == Some(port->Err_0)
            &&& count is Ok && (args.myrouter_port is None || port is Ok) ==> backend_error(
                args,
            ) is None
        },
{
    reveal_strlit("manifold");
    reveal_strlit("memory");
    reveal_strlit("xdb");
    assert("manifold"@.len() == 8 && "memory"@.len() == 6 && "xdb"@.len() == 3);
}

/// Reads and writes are limited each by its own argument: not at all if that is left out, else
/// to the number that its digits denote, which is not zero.
pub proof fn law_limits_are_the_numbers_denoted(args: BlobArgs, options: ThrottleOptions)
    requires
        throttle_follows(options, args),
    ensures
        options.read_qps is Some <==> args.read_qps is Some,
        options.read_qps matches Some(n) ==> n > 0 && is_number(args.read_qps->0@) && n
            == decimal_value(unsigned_part(args.read_qps->0@)),
        options.write_qps is Some <==> args.write_qps is Some,
        options.write_qps matches Some(n) ==> n > 0 && is_number(args.write_qps->0@) && n
            == decimal_value(unsigned_part(args.write_qps->0@)),
{
    if args.read_qps is Some {
        law_only_zero_is_refused_as_zero(args.read_qps->0@, u32::MAX as int);
    }
    if args.write_qps is Some {
        law_only_zero_is_refused_as_zero(args.write_qps->0@, u32::MAX as int);
    }
}

/// Limits are refused exactly if one of them is given and cannot be read or is zero, the one on
/// reads before the one on writes.
pub proof fn law_first_bad_limit_decides(args: BlobArgs)
    ensures
        ({
            let read = read_nonzero(args.read_qps->0@, u32::MAX as int);
            let write = read_nonzero(args.write_qps->0@, u32::MAX as int);
            let bad_read = args.read_qps is Some && read is Err;
            let bad_write = args.write_qps is Some && write is Err;
            &&& bad_read ==> throttle_error(args) == Some(read->Err_0)
            &&& !bad_read && bad_write ==> throttle_error(args) == Some(write->Err_0)
            &&& !bad_read && !bad_write ==> throttle_error(args) is None
        }),
{
}

} // verus!
