//! The files that a commit changes: what to upload, and what a changeset says of them.

use bytes::Bytes;
use vstd::prelude::*;

use crate::assoc::{entries_map, keys_distinct, AssocMap};
use crate::buffer::buffer_contents;
use super::manifest::{FileType, GitLeaf};
use super::oid::Oid;
use super::path::MPath;

verus! {

/// How many uploads may run at the same time.
pub const UPLOAD_CONCURRENCY: usize = 100;

/// A Git object id together with what Git hashes in front of the content: the type of the
/// object and its size.
#[derive(Debug)]
pub struct RichGitSha1 {
    /// The bytes of the id.
    pub sha1: Bytes,
    pub ty: String,
    pub size: u64,
}

/// The upload of one blob.
#[derive(Debug)]
pub struct UploadRequest {
    /// The bytes to store.
    pub content: Bytes,
    /// Their number, which the store is told beforehand.
    pub size: u64,
    /// The hash that the store is to find.
    pub git_sha1: RichGitSha1,
}

/// Prepares the upload of the blob `oid`, whose content is `content`.
pub fn do_upload(oid: Oid, content: &[u8]) -> (request: UploadRequest)
    ensures
        buffer_contents(request.content) == content@,
        request.size == content@.len(),
        buffer_contents(request.git_sha1.sha1) == oid@,
        request.git_sha1.ty@ == "blob"@,
        request.git_sha1.size == content@.len(),
{
    let bytes: Bytes = Bytes::copy_from_slice(content);
    let size: u64 = bytes.len() as u64;
    let sha1: Bytes = Bytes::copy_from_slice(oid.raw.as_slice());
    UploadRequest {
        content: bytes,
        size,
        git_sha1: RichGitSha1 { sha1, ty: "blob".to_string(), size },
    }
}

/// How one path differs between a commit and its parents.
#[derive(Debug)]
pub enum BonsaiDiffFileChange {
    /// The file is new or has another content.
    Changed(MPath, FileType, GitLeaf),
    /// The file is as in some parent, but has to be mentioned.
    ChangedReusedId(MPath, FileType, GitLeaf),
    /// The file is gone.
    Deleted(MPath),
}

/// What the store says of a content that it has taken.
#[derive(Debug)]
pub struct ContentMetadata<C> {
    pub content_id: C,
    pub total_size: u64,
}

/// What a changeset says of a file that is there after it.
#[derive(Debug)]
pub struct FileChange<C> {
    pub content_id: C,
    pub file_type: FileType,
    pub size: u64,
    /// The path that the file was copied from; copies are not looked for.
    pub copy_from: Option<MPath>,
}

/// What is to be done about one difference.
#[derive(Debug)]
pub enum ChangeStep {
    /// The blob is to be uploaded, and the outcome recorded for the path.
    Upload(MPath, FileType, Oid),
    /// The path is to be recorded as deleted.
    Delete(MPath),
}

/// What is to be done about a difference: a file that is there is uploaded, also where some
/// parent has it already.
pub open spec fn step_of(change: BonsaiDiffFileChange) -> ChangeStep {
    match change {
        BonsaiDiffFileChange::Changed(path, ty, leaf) => ChangeStep::Upload(path, ty, leaf.0),
        BonsaiDiffFileChange::ChangedReusedId(path, ty, leaf) => ChangeStep::Upload(
            path,
            ty,
            leaf.0,
        ),
        BonsaiDiffFileChange::Deleted(path) => ChangeStep::Delete(path),
    }
}

/// What is to be done about `change`.
pub fn change_step(change: BonsaiDiffFileChange) -> (step: ChangeStep)
    ensures
        step == step_of(change),
{
    match change {
        BonsaiDiffFileChange::Changed(path, ty, leaf) => ChangeStep::Upload(path, ty, leaf.0),
        BonsaiDiffFileChange::ChangedReusedId(path, ty, leaf) => ChangeStep::Upload(
            path,
            ty,
            leaf.0,
        ),
        BonsaiDiffFileChange::Deleted(path) => ChangeStep::Delete(path),
    }
}

impl ChangeStep {
    /// The blob that is to be uploaded, if there is one.
    pub open spec fn blob(&self) -> Option<Oid> {
        match self {
            ChangeStep::Upload(_, _, oid) => Some(*oid),
            ChangeStep::Delete(_) => None,
        }
    }

    /// The blob that is to be uploaded, if there is one.
    pub fn upload(&self) -> (res: Option<Oid>)
        ensures
            res == self.blob(),
    {
        match self {
            ChangeStep::Upload(_, _, oid) => Some(*oid),
            ChangeStep::Delete(_) => None,
        }
    }
}

/// What a changeset says of a file of type `ty` whose content was stored as `meta`.
pub open spec fn stored_file<C>(ty: FileType, meta: ContentMetadata<C>) -> FileChange<C> {
    FileChange { content_id: meta.content_id, file_type: ty, size: meta.total_size, copy_from: None }
}

/// The changed paths of a commit; a deleted path is there with `None`.
pub struct FileChanges<C> {
    map: AssocMap<MPath, Option<FileChange<C>>>,
}

impl<C> View for FileChanges<C> {
    type V = Map<Seq<Seq<u8>>, Option<FileChange<C>>>;

    closed spec fn view(&self) -> Map<Seq<Seq<u8>>, Option<FileChange<C>>> {
        self.map@
    }
}

impl<C> FileChanges<C> {
    /// What is recorded for `path`.
    pub fn get(&self, path: &MPath) -> (res: Option<&Option<FileChange<C>>>)
        ensures
            match res {
                Some(change) => self@.contains_key(path@) && *change == self@[path@],
                None => !self@.contains_key(path@),
            },
    {
        self.map.get(path)
    }

    /// The number of changed paths.
    pub fn len(&self) -> (res: usize)
        ensures
            res == self@.len(),
    {
        self.map.len()
    }

    /// The changed paths with what is recorded for them, each path once.
    pub fn entries(&self) -> (res: &Vec<(MPath, Option<FileChange<C>>)>)
        ensures
            keys_distinct(res@),
            entries_map(res@) == self@,
    {
        self.map.entries()
    }
}

/// What became of one difference.
#[derive(Debug)]
pub enum ChangeOutcome<C> {
    /// The blob for the path was stored.
    Stored(MPath, FileType, ContentMetadata<C>),
    /// The path is deleted.
    Deleted(MPath),
}

impl<C> View for ChangeOutcome<C> {
    type V = (Seq<Seq<u8>>, Option<FileChange<C>>);

    open spec fn view(&self) -> (Seq<Seq<u8>>, Option<FileChange<C>>) {
        match *self {
            ChangeOutcome::Stored(path, ty, meta) => (path@, Some(stored_file(ty, meta))),
            ChangeOutcome::Deleted(path) => (path@, None),
        }
    }
}

/// What became of a difference once `step` is done. `stored` is what the store says of the blob
/// that was to be uploaded.
pub open spec fn outcome_of<C>(
    step: ChangeStep,
    stored: Option<ContentMetadata<C>>,
) -> ChangeOutcome<C> {
    match step {
        ChangeStep::Upload(path, ty, _) => ChangeOutcome::Stored(path, ty, stored->0),
        ChangeStep::Delete(path) => ChangeOutcome::Deleted(path),
    }
}

/// What became of a difference once `step` is done: a blob that was uploaded is recorded under
/// the path and with the type of the step that asked for it.
pub fn step_outcome<C>(step: ChangeStep, stored: Option<ContentMetadata<C>>) -> (outcome:
    ChangeOutcome<C>)
    requires
        stored is Some <==> step.blob() is Some,
    ensures
        outcome == outcome_of(step, stored),
{
    match step {
        ChangeStep::Upload(path, ty, _) => ChangeOutcome::Stored(path, ty, stored.unwrap()),
        ChangeStep::Delete(path) => ChangeOutcome::Deleted(path),
    }
}

/// A changed file is recorded under its own path and type, with the id and the size under
/// which its blob was stored; a deleted one is recorded as deleted.
pub proof fn law_each_change_is_recorded_as_such<C>(
    change: BonsaiDiffFileChange,
    meta: ContentMetadata<C>,
)
    ensures
        match change {
            BonsaiDiffFileChange::Changed(path, ty, leaf) => {
                &&& step_of(change).blob() == Some(leaf.0)
                &&& outcome_of(step_of(change), Some(meta))@ == (
                    path@,
                    Some(
                        FileChange {
                            content_id: meta.content_id,
                            file_type: ty,
                            size: meta.total_size,
                            copy_from: None,
                        },
                    ),
                )
            },
            BonsaiDiffFileChange::ChangedReusedId(path, ty, leaf) => {
                &&& step_of(change).blob() == Some(leaf.0)
                &&& outcome_of(step_of(change), Some(meta))@ == (
                    path@,
                    Some(
                        FileChange {
                            content_id: meta.content_id,
                            file_type: ty,
                            size: meta.total_size,
                            copy_from: None,
                        },
                    ),
                )
            },
            BonsaiDiffFileChange::Deleted(path) => {
                &&& step_of(change).blob() is None
                &&& outcome_of(step_of(change), None::<ContentMetadata<C>>)@ == (
                    path@,
                    None::<FileChange<C>>,
                )
            },
        },
{
}

/// The paths of a list of outcomes, with what a changeset says of them.
pub open spec fn outcomes_view<C>(outcomes: Seq<ChangeOutcome<C>>) -> Seq<
    (Seq<Seq<u8>>, Option<FileChange<C>>),
> {
    outcomes.map_values(|outcome: ChangeOutcome<C>| outcome@)
}

/// The file changes of a commit, from what became of its differences. Should a path have
/// two outcomes, the later one counts.
pub fn find_file_changes<C>(outcomes: Vec<ChangeOutcome<C>>) -> (changes: FileChanges<C>)
    ensures
        changes@ == recorded(outcomes_view(outcomes@)),
{
    let ghost all = outcomes_view(outcomes@);
    let mut map: AssocMap<MPath, Option<FileChange<C>>> = AssocMap::new();
    assert(all.take(0) =~= Seq::<(Seq<Seq<u8>>, Option<FileChange<C>>)>::empty());
    for outcome in it: outcomes
        invariant
            it.seq() == outcomes@,
            all == outcomes_view(outcomes@),
            map@ == recorded(all.take(it.index() as int)),
    {
        let ghost next = all.take(it.index() + 1);
        proof {
            assert(next.drop_last() =~= all.take(it.index() as int));
            assert(next.last() == outcome@);
        }
        match outcome {
            ChangeOutcome::Stored(path, ty, meta) => {
                map.insert(
                    path,
                    Some(
                        FileChange {
                            content_id: meta.content_id,
                            file_type: ty,
                            size: meta.total_size,
                            copy_from: None,
                        },
                    ),
                );
            },
            ChangeOutcome::Deleted(path) => {
                map.insert(path, None);
            },
        }
    }
    assert(all.take(all.len() as int) =~= all);
    FileChanges { map }
}

/// The changes that are recorded once the outcomes in `outcomes` have come in, in this order.
pub open spec fn recorded<C>(
    outcomes: Seq<(Seq<Seq<u8>>, Option<FileChange<C>>)>,
) -> Map<Seq<Seq<u8>>, Option<FileChange<C>>>
    decreases outcomes.len(),
{
    if outcomes.len() == 0 {
        Map::empty()
    } else {
        recorded(outcomes.drop_last()).insert(outcomes.last().0, outcomes.last().1)
    }
}

/// Whether no path has two outcomes.
pub open spec fn paths_distinct<C>(outcomes: Seq<(Seq<Seq<u8>>, Option<FileChange<C>>)>) -> bool {
    forall|i: int, j: int|
        0 <= i < j < outcomes.len() ==> (#[trigger] outcomes[i]).0 != (#[trigger] outcomes[j]).0
}

/// Where no path has two outcomes, each path is recorded with its outcome and nothing else
/// is recorded.
pub proof fn law_each_outcome_is_recorded<C>(
    outcomes: Seq<(Seq<Seq<u8>>, Option<FileChange<C>>)>,
    path: Seq<Seq<u8>>,
    change: Option<FileChange<C>>,
)
    requires
        paths_distinct(outcomes),
    ensures
        outcomes.contains((path, change)) <==> recorded(outcomes).contains_key(path)
            && recorded(outcomes)[path] == change,
    decreases outcomes.len(),
{
    if outcomes.len() > 0 {
        let front = outcomes.drop_last();
        assert(paths_distinct(front));
        law_each_outcome_is_recorded(front, path, change);
        if outcomes.contains((path, change)) {
            let i = outcomes.index_of((path, change));
            assert(outcomes[i] == (path, change));
            if i < front.len() {
                assert(front[i] == (path, change));
                assert(outcomes[i].0 != outcomes[outcomes.len() - 1].0);
            }
        }
        if recorded(outcomes).contains_key(path) && recorded(outcomes)[path] == change {
            if path == outcomes.last().0 {
                assert(outcomes[outcomes.len() - 1] == (path, change));
            } else {
                let i = front.index_of((path, change));
                assert(front[i] == (path, change));
                assert(outcomes[i] == (path, change));
            }
        }
    }
}

/// Uploads finish in any order, and the order leaves no trace: the same outcomes, one for
/// each path, give the same changes.
pub proof fn law_order_of_outcomes_is_irrelevant<C>(
    a: Seq<(Seq<Seq<u8>>, Option<FileChange<C>>)>,
    b: Seq<(Seq<Seq<u8>>, Option<FileChange<C>>)>,
)
    requires
        paths_distinct(a),
        paths_distinct(b),
        forall|outcome: (Seq<Seq<u8>>, Option<FileChange<C>>)|
            a.contains(outcome) <==> b.contains(outcome),
    ensures
        recorded(a) == recorded(b),
{
    assert forall|path: Seq<Seq<u8>>| #[trigger]
        recorded(a).contains_key(path) <==> recorded(b).contains_key(path) by {
        if recorded(a).contains_key(path) {
            law_each_outcome_is_recorded(a, path, recorded(a)[path]);
            law_each_outcome_is_recorded(b, path, recorded(a)[path]);
        }
        if recorded(b).contains_key(path) {
            law_each_outcome_is_recorded(a, path, recorded(b)[path]);
            law_each_outcome_is_recorded(b, path, recorded(b)[path]);
        }
    }
    assert forall|path: Seq<Seq<u8>>| #[trigger] recorded(a).contains_key(path) implies recorded(
        a,
    )[path] == recorded(b)[path] by {
        law_each_outcome_is_recorded(a, path, recorded(a)[path]);
        law_each_outcome_is_recorded(b, path, recorded(a)[path]);
    }
    assert(recorded(a) =~= recorded(b));
}

/// What one outcome puts into a changeset, field by field: a path that was stored is there with
/// its own type, whichever of the three it is, and with the id and the size under which it was
/// stored, and copies are not looked for; a path that was deleted is there without a file.
pub proof fn law_an_outcome_says_what_was_stored<C>(
    path: MPath,
    ty: FileType,
    meta: ContentMetadata<C>,
)
    ensures
        ({
            let outcome = ChangeOutcome::Stored(path, ty, meta)@;
            &&& outcome.0.len() == path.elements@.len()
            &&& forall|i: int|
                0 <= i < outcome.0.len() ==> #[trigger] outcome.0[i] == path.elements@[i].bytes@
            &&& outcome.1 is Some
            &&& outcome.1->0.content_id == meta.content_id
            &&& outcome.1->0.size == meta.total_size
            &&& outcome.1->0.copy_from is None
            &&& ty is Regular <==> outcome.1->0.file_type is Regular
            &&& ty is Executable <==> outcome.1->0.file_type is Executable
            &&& ty is Symlink <==> outcome.1->0.file_type is Symlink
        }),
        ({
            let outcome = ChangeOutcome::<C>::Deleted(path)@;
            &&& outcome.0.len() == path.elements@.len()
            &&& forall|i: int|
                0 <= i < outcome.0.len() ==> #[trigger] outcome.0[i] == path.elements@[i].bytes@
            &&& outcome.1 is None
        }),
{
}

/// The last outcome of a path is what is recorded for it, and nothing is recorded for a path
/// without one.
pub proof fn law_last_outcome_of_a_path_counts<C>(outcomes: Seq<ChangeOutcome<C>>, i: int)
    requires
        0 <= i < outcomes.len(),
        forall|j: int| i < j < outcomes.len() ==> (#[trigger] outcomes[j])@.0 != outcomes[i]@.0,
    ensures
        recorded(outcomes_view(outcomes)).contains_key(outcomes[i]@.0),
        outcomes[i] matches ChangeOutcome::Stored(path, ty, meta) ==> recorded(
            outcomes_view(outcomes),
        )[path@] == Some(
            FileChange {
                content_id: meta.content_id,
                file_type: ty,
                size: meta.total_size,
                copy_from: None,
            },
        ),
        outcomes[i] matches ChangeOutcome::Deleted(path) ==> recorded(
            outcomes_view(outcomes),
        )[path@] is None,
        forall|path: Seq<Seq<u8>>| #[trigger]
            recorded(outcomes_view(outcomes)).contains_key(path) ==> exists|j: int|
                0 <= j < outcomes.len() && (#[trigger] outcomes[j])@.0 == path,
    decreases outcomes.len(),
{
    let all = outcomes_view(outcomes);
    lemma_recorded_last(all, i);
    assert forall|path: Seq<Seq<u8>>| #[trigger] recorded(all).contains_key(path) implies exists|
        j: int,
    | 0 <= j < outcomes.len() && (#[trigger] outcomes[j])@.0 == path by {
        let j = lemma_recorded_has_an_outcome(all, path);
        assert(outcomes[j]@.0 == path);
    }
}

proof fn lemma_recorded_last<C>(outcomes: Seq<(Seq<Seq<u8>>, Option<FileChange<C>>)>, i: int)
    requires
        0 <= i < outcomes.len(),
        forall|j: int| i < j < outcomes.len() ==> (#[trigger] outcomes[j]).0 != outcomes[i].0,
    ensures
        recorded(outcomes).contains_key(outcomes[i].0),
        recorded(outcomes)[outcomes[i].0] == outcomes[i].1,
    decreases outcomes.len(),
{
    if i < outcomes.len() - 1 {
        let front = outcomes.drop_last();
        assert forall|j: int| i < j < front.len() implies (#[trigger] front[j]).0 != front[i].0 by {
            assert(outcomes[j].0 != outcomes[i].0);
        }
        lemma_recorded_last(front, i);
        assert(outcomes[outcomes.len() - 1].0 != outcomes[i].0);
    }
}

proof fn lemma_recorded_has_an_outcome<C>(
    outcomes: Seq<(Seq<Seq<u8>>, Option<FileChange<C>>)>,
    path: Seq<Seq<u8>>,
) -> (j: int)
    requires
        recorded(outcomes).contains_key(path),
    ensures
        0 <= j < outcomes.len(),
        outcomes[j].0 == path,
    decreases outcomes.len(),
{
    if outcomes.last().0 == path {
        outcomes.len() - 1
    } else {
        lemma_recorded_has_an_outcome(outcomes.drop_last(), path)
    }
}

} // verus!
