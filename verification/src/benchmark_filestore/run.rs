//! What a run writes, and what it does once that is written.

use bytes::Bytes;
use rand::Rng;
use vstd::prelude::*;

use crate::buffer::buffer_contents;

verus! {

/// How many random bytes stand in front of an input that is to be randomized.
pub const RANDOM_PREFIX_LEN: u64 = 32;

/// Calls `rand::thread_rng` and draws 32 bytes from it. Nothing is claimed of their values.
#[verifier::external_body]
fn random_bytes() -> [u8; 32] {
    rand::thread_rng().gen::<[u8; 32]>()
}

/// What is written: the content of a file, behind some other bytes where there are any.
#[derive(Debug)]
pub struct InputPlan {
    /// How many bytes are written in all.
    pub len: u64,
    /// The bytes in front of the file.
    pub prefix: Option<Bytes>,
}

/// The bytes that a plan puts in front of the file.
pub open spec fn prefix_contents(plan: InputPlan) -> Seq<u8> {
    match plan.prefix {
        Some(bytes) => buffer_contents(bytes),
        None => Seq::empty(),
    }
}

/// Puts `bytes` in front of a file of `file_len` bytes.
pub fn prefix_input(file_len: u64, bytes: &[u8; 32]) -> (plan: InputPlan)
    requires
        file_len + RANDOM_PREFIX_LEN <= u64::MAX,
    ensures
        plan.prefix is Some,
        prefix_contents(plan) == bytes@,
        buffer_contents(plan.prefix->0) == bytes@,
        plan.len == file_len + RANDOM_PREFIX_LEN,
        plan.len == file_len + 32,
{
    let prefix: Bytes = Bytes::copy_from_slice(bytes.as_slice());
    let len: u64 = file_len + prefix.len() as u64;
    InputPlan { len, prefix: Some(prefix) }
}

/// Plans to write a file of `file_len` bytes, behind random bytes if `randomize` is set.
pub fn plan_input(file_len: u64, randomize: bool) -> (plan: InputPlan)
    requires
        randomize ==> file_len + RANDOM_PREFIX_LEN <= u64::MAX,
    ensures
        plan.prefix is Some <==> randomize,
        prefix_contents(plan).len() == if randomize {
            RANDOM_PREFIX_LEN as int
        } else {
            0
        },
        plan.len == prefix_contents(plan).len() + file_len,
        randomize ==> plan.prefix is Some && buffer_contents(plan.prefix->0).len() == 32
            && plan.len == file_len + 32,
        !randomize ==> plan.prefix is None && plan.len == file_len,
{
    if randomize {
        prefix_input(file_len, &random_bytes())
    } else {
        InputPlan { len: file_len, prefix: None }
    }
}

/// A step of a run.
#[derive(Clone, Copy, Debug, PartialEq, Eq, Structural)]
pub enum RunStep {
    /// Wait that many seconds.
    Sleep(u64),
    /// Say under which key the file was stored.
    ReportCommitted,
    /// Read the file back.
    Read,
}

/// The steps of a run once the file was stored: it waits if it is to, and reads the file
/// twice.
pub open spec fn run_steps(delay_seconds: Option<u64>) -> Seq<RunStep> {
    let steps = seq![RunStep::ReportCommitted, RunStep::Read, RunStep::Read];
    match delay_seconds {
        Some(seconds) => seq![RunStep::Sleep(seconds)] + steps,
        None => steps,
    }
}

/// What is left of a run after the attempt to store the file: nothing if it failed.
pub fn steps_after_store<M, E>(stored: Result<M, E>, delay_seconds: Option<u64>) -> (res: Result<
    (M, Vec<RunStep>),
    E,
>)
    ensures
        match res {
            Ok((metadata, steps)) => stored == Ok::<M, E>(metadata) && steps@ == run_steps(
                delay_seconds,
            ),
            Err(e) => stored == Err::<M, E>(e),
        },
        res matches Ok((_, steps)) ==> (delay_seconds is None ==> steps@.len() == 3),
        res matches Ok((_, steps)) ==> (delay_seconds is Some ==> steps@.len() == 4 && steps@[0]
            == RunStep::Sleep(delay_seconds->0)),
        res matches Ok((_, steps)) ==> steps@[steps@.len() - 3] == RunStep::ReportCommitted
            && steps@[steps@.len() - 2] == RunStep::Read && steps@[steps@.len() - 1]
            == RunStep::Read,
        res is Ok <==> stored is Ok,
{
    match stored {
        Ok(metadata) => {
            let mut steps: Vec<RunStep> = Vec::new();
            match delay_seconds {
                Some(seconds) => {
                    steps.push(RunStep::Sleep(seconds));
                },
                None => {},
            }
            steps.push(RunStep::ReportCommitted);
            steps.push(RunStep::Read);
            steps.push(RunStep::Read);
            assert(steps@ =~= run_steps(delay_seconds));
            Ok((metadata, steps))
        },
        Err(e) => Err(e),
    }
}

/// Why a file cannot be read back.
#[derive(Clone, Copy, Debug, PartialEq, Eq, Structural)]
pub enum FetchError {
    /// The store does not know the file.
    NoStream,
}

impl FetchError {
    /// The message for a user.
    pub fn message(&self) -> (text: &'static str)
        ensures
            text@ == "Fetch failed: no stream"@,
    {
        "Fetch failed: no stream"
    }
}

/// The stream to read from, if the store knows the file.
pub fn fetched_stream<S>(fetched: Option<S>) -> (res: Result<S, FetchError>)
    ensures
        match res {
            Ok(stream) => fetched == Some(stream),
            Err(_) => fetched is None,
        },
{
    match fetched {
        Some(stream) => Ok(stream),
        None => Err(FetchError::NoStream),
    }
}

/// The outcome of reading, by the outcome of draining the stream: a stream that breaks off is
/// measured as a failure but does not end the run.
pub fn read_outcome<T, E>(drained: &Result<T, E>) -> (res: Result<(), FetchError>)
    ensures
        res is Ok,
{
    match drained {
        Ok(_) => Ok(()),
        Err(_) => Ok(()),
    }
}

/// After a file was stored, a run reads it twice and then is over. Before the first read it
/// says that the file was stored, and before that it waits exactly if it is to, and as long as
/// it is to.
pub proof fn law_a_run_waits_reports_and_reads_twice(delay_seconds: Option<u64>)
    ensures
        ({
            let steps = run_steps(delay_seconds);
            let n = steps.len() as int;
            &&& n == if delay_seconds is Some {
                4int
            } else {
                3
            }
            &&& steps[n - 1] == RunStep::Read
            &&& steps[n - 2] == RunStep::Read
            &&& steps[n - 3] == RunStep::ReportCommitted
            &&& delay_seconds matches Some(seconds) ==> steps[0] == RunStep::Sleep(seconds)
        }),
{
}

/// A plan writes its prefix and the file, and nothing else.
pub proof fn law_a_plan_without_prefix_writes_the_file_alone(plan: InputPlan)
    ensures
        plan.prefix is None ==> prefix_contents(plan).len() == 0,
        plan.prefix matches Some(bytes) ==> prefix_contents(plan) == buffer_contents(bytes),
{
}

} // verus!
