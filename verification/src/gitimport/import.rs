//! The import itself: commit after commit becomes a changeset, and in the end the derived
//! trees are held against those of Git.
//!
//! Reading commits, uploading files, and freezing and saving changesets is the caller's work.
//! What a commit turns into, when the import has to stop, and which changeset stands for
//! which commit is decided here.

use vstd::prelude::*;
use vstd::utf8::encode_utf8;

use crate::assoc::{entries_map, keys_distinct, AssocMap, MapKey};
use super::changes::{FileChange, FileChanges};
use super::manifest::GitTree;
use super::oid::{hex_text, Oid};

verus! {

/// The name under which hg-git keeps the id of a Git commit.
pub const HGGIT_COMMIT_ID_EXTRA: &'static str = "convert_revision";

/// A parent of a commit.
#[derive(Clone, Copy, Debug)]
pub struct ParentCommit {
    pub id: Oid,
    /// The root tree of the parent.
    pub tree: Oid,
}

/// A commit as it was read from the Git repository.
#[derive(Debug)]
pub struct GitCommit {
    pub id: Oid,
    /// The root tree of the commit.
    pub tree: Oid,
    pub parents: Vec<ParentCommit>,
    /// The name of the author, if it is there and is valid text.
    pub author: Option<String>,
    /// The message, if it is valid text.
    pub message: Option<String>,
    /// The time of the commit in seconds since 1970.
    pub seconds: i64,
    /// The offset of the committer's time zone.
    pub offset_minutes: i32,
}

/// What a commit says.
#[verifier::ext_equal]
pub struct CommitModel {
    pub id: Seq<u8>,
    pub tree: Seq<u8>,
    /// The parents, by id and root tree.
    pub parents: Seq<(Seq<u8>, Seq<u8>)>,
    pub author: Option<Seq<char>>,
    pub message: Option<Seq<char>>,
    pub seconds: i64,
    pub offset_minutes: i32,
}

/// The characters of a text that may be missing.
pub open spec fn optional_text(text: Option<String>) -> Option<Seq<char>> {
    match text {
        Some(text) => Some(text@),
        None => None,
    }
}

impl View for GitCommit {
    type V = CommitModel;

    open spec fn view(&self) -> CommitModel {
        CommitModel {
            id: self.id@,
            tree: self.tree@,
            parents: self.parents@.map_values(
                |parent: ParentCommit| (parent.id@, parent.tree@),
            ),
            author: optional_text(self.author),
            message: optional_text(self.message),
            seconds: self.seconds,
            offset_minutes: self.offset_minutes,
        }
    }
}

/// Why an import stops.
#[derive(Clone, Copy, Debug)]
pub enum ImportError {
    /// The commit has no author.
    NoAuthor(Oid),
    /// The parent was not imported before its child.
    NotImported(Oid),
    /// What was derived for the commit is not the id of a tree.
    InvalidTreeId(Oid),
    /// Another tree was derived for the commit than it has in Git.
    InvalidTree { commit: Oid, derived: Oid, expected: Oid },
}

impl ImportError {
    /// The message for a user.
    pub fn message(&self) -> (text: String)
        ensures
            text@ == self.text(),
            self matches ImportError::NoAuthor(id) ==> text@ == "Commit has no author: "@
                + hex_text(id.raw@),
            self matches ImportError::NotImported(id) ==> text@ == "Commit was not imported: "@
                + hex_text(id.raw@),
            self is InvalidTreeId ==> text@ == "raw byte array must be 20 bytes"@,
            self matches ImportError::InvalidTree { commit, derived, expected } ==> text@
                == "Invalid tree was derived for "@ + hex_text(commit.raw@) + ": "@ + hex_text(
                derived.raw@,
            ) + " (expected "@ + hex_text(expected.raw@) + ")"@,
    {
        match self {
            ImportError::NoAuthor(id) => "Commit has no author: ".to_string().concat(
                id.to_hex().as_str(),
            ),
            ImportError::NotImported(id) => "Commit was not imported: ".to_string().concat(
                id.to_hex().as_str(),
            ),
            ImportError::InvalidTreeId(_) => "raw byte array must be 20 bytes".to_string(),
            ImportError::InvalidTree { commit, derived, expected } => {
                "Invalid tree was derived for ".to_string().concat(commit.to_hex().as_str()).concat(
                    ": ",
                ).concat(derived.to_hex().as_str()).concat(" (expected ").concat(
                    expected.to_hex().as_str(),
                ).concat(")")
            },
        }
    }

    /// The characters of [`ImportError::message`].
    pub open spec fn text(&self) -> Seq<char> {
        match self {
            ImportError::NoAuthor(id) => "Commit has no author: "@ + hex_text(id@),
            ImportError::NotImported(id) => "Commit was not imported: "@ + hex_text(id@),
            ImportError::InvalidTreeId(_) => "raw byte array must be 20 bytes"@,
            ImportError::InvalidTree { commit, derived, expected } => {
                "Invalid tree was derived for "@ + hex_text(commit@) + ": "@ + hex_text(derived@)
                    + " (expected "@ + hex_text(expected@) + ")"@
            },
        }
    }
}

/// The trees between which the differences of a commit are to be found.
#[derive(Debug)]
pub struct DiffRequest {
    /// The root tree of the commit.
    pub root: GitTree,
    /// The root trees of its parents, each once.
    pub parents: Vec<GitTree>,
}

/// A point in time with the offset of a time zone.
#[derive(Clone, Copy, Debug, PartialEq, Eq, Structural)]
pub struct Timestamp {
    pub seconds: i64,
    pub offset_seconds: i32,
}

/// A changeset before it is frozen and gets an id.
pub struct BonsaiChangesetMut<C, K> {
    pub parents: Vec<C>,
    pub author: String,
    pub author_date: Timestamp,
    pub committer: Option<String>,
    pub committer_date: Option<Timestamp>,
    pub message: String,
    pub extra: Vec<(String, Vec<u8>)>,
    pub file_changes: FileChanges<K>,
}

/// What a changeset says. Freezing it gives an id that depends on nothing else.
#[verifier::ext_equal]
pub struct ChangesetModel<C, K> {
    pub parents: Seq<C>,
    pub author: Seq<char>,
    pub author_date: Timestamp,
    pub committer: Option<Seq<char>>,
    pub committer_date: Option<Timestamp>,
    pub message: Seq<char>,
    pub extra: Seq<(Seq<char>, Seq<u8>)>,
    pub file_changes: Map<Seq<Seq<u8>>, Option<FileChange<K>>>,
}

impl<C, K> View for BonsaiChangesetMut<C, K> {
    type V = ChangesetModel<C, K>;

    open spec fn view(&self) -> ChangesetModel<C, K> {
        ChangesetModel {
            parents: self.parents@,
            author: self.author@,
            author_date: self.author_date,
            committer: optional_text(self.committer),
            committer_date: self.committer_date,
            message: self.message@,
            extra: extras_view(self.extra@),
            file_changes: self.file_changes@,
        }
    }
}

/// The changeset that `commit` becomes, if its parents became `parents` and it changes
/// `file_changes`.
pub open spec fn changeset_of<C, K>(
    commit: CommitModel,
    parents: Seq<C>,
    file_changes: Map<Seq<Seq<u8>>, Option<FileChange<K>>>,
    hggit_compatibility: bool,
) -> ChangesetModel<C, K> {
    ChangesetModel {
        parents,
        author: commit.author->0,
        author_date: Timestamp {
            seconds: commit.seconds,
            offset_seconds: (commit.offset_minutes * 60) as i32,
        },
        committer: None,
        committer_date: None,
        message: match commit.message {
            Some(message) => message,
            None => Seq::empty(),
        },
        extra: extra_of(commit.id, hggit_compatibility),
        file_changes,
    }
}

/// The changesets of a list of parents, or the first of them that was not imported.
pub open spec fn parent_changesets<C>(
    imported: Map<Seq<u8>, C>,
    parents: Seq<ParentCommit>,
) -> Result<Seq<C>, ImportError>
    decreases parents.len(),
{
    if parents.len() == 0 {
        Ok(Seq::empty())
    } else {
        match parent_changesets(imported, parents.drop_last()) {
            Err(e) => Err(e),
            Ok(ids) => if imported.contains_key(parents.last().id@) {
                Ok(ids.push(imported[parents.last().id@]))
            } else {
                Err(ImportError::NotImported(parents.last().id))
            },
        }
    }
}

/// Whether a commit can be imported once the commits in `imported` have been: the changesets
/// of its parents, or what stops the import.
pub open spec fn commit_parents<C>(imported: Map<Seq<u8>, C>, commit: GitCommit) -> Result<
    Seq<C>,
    ImportError,
> {
    if commit.author is None {
        Err(ImportError::NoAuthor(commit.id))
    } else {
        parent_changesets(imported, commit.parents@)
    }
}

/// The ids of a list of trees.
pub open spec fn tree_ids(trees: Seq<GitTree>) -> Seq<Seq<u8>> {
    trees.map_values(|tree: GitTree| tree.0@)
}

/// The ids of the root trees of a list of parents.
pub open spec fn parent_trees(parents: Seq<ParentCommit>) -> Seq<Seq<u8>> {
    parents.map_values(|parent: ParentCommit| parent.tree@)
}

/// What a changeset keeps besides the usual: for hg-git, the id of the Git commit in
/// hexadecimal digits.
pub open spec fn extra_of(id: Seq<u8>, hggit_compatibility: bool) -> Seq<(Seq<char>, Seq<u8>)> {
    if hggit_compatibility {
        seq![(HGGIT_COMMIT_ID_EXTRA@, encode_utf8(hex_text(id)))]
    } else {
        Seq::empty()
    }
}

/// A list of extras by name and value.
pub open spec fn extras_view(extra: Seq<(String, Vec<u8>)>) -> Seq<(Seq<char>, Seq<u8>)> {
    extra.map_values(|e: (String, Vec<u8>)| (e.0@, e.1@))
}

proof fn lemma_parent_error_stays<C>(
    imported: Map<Seq<u8>, C>,
    parents: Seq<ParentCommit>,
    k: int,
)
    requires
        0 <= k <= parents.len(),
        parent_changesets(imported, parents.take(k)) is Err,
    ensures
        parent_changesets(imported, parents) == parent_changesets(imported, parents.take(k)),
    decreases parents.len(),
{
    if k == parents.len() {
        assert(parents.take(k) =~= parents);
    } else {
        assert(parents.drop_last().take(k) =~= parents.take(k));
        lemma_parent_error_stays(imported, parents.drop_last(), k);
    }
}

/// Whether `tree` is one of `trees`.
fn has_tree(trees: &Vec<GitTree>, tree: &Oid) -> (res: bool)
    ensures
        res == tree_ids(trees@).contains(tree@),
{
    let mut i: usize = 0;
    while i < trees.len()
        invariant
            i <= trees@.len(),
            forall|j: int| 0 <= j < i ==> tree_ids(trees@)[j] != tree@,
        decreases trees@.len() - i,
    {
        if trees[i].0.same(tree) {
            assert(tree_ids(trees@)[i as int] == tree@);
            return true;
        }
        i = i + 1;
    }
    false
}

/// The root trees of `parents`, each once.
pub fn distinct_parent_trees(parents: &Vec<ParentCommit>) -> (res: Vec<GitTree>)
    ensures
        tree_ids(res@).no_duplicates(),
        tree_ids(res@).to_set() == parent_trees(parents@).to_set(),
{
    let mut res: Vec<GitTree> = Vec::new();
    let mut i: usize = 0;
    let ghost all = parent_trees(parents@);
    while i < parents.len()
        invariant
            i <= parents@.len(),
            all == parent_trees(parents@),
            tree_ids(res@).no_duplicates(),
            forall|t: Seq<u8>| tree_ids(res@).contains(t) ==> all.contains(t),
            forall|j: int| 0 <= j < i ==> tree_ids(res@).contains(#[trigger] all[j]),
        decreases parents@.len() - i,
    {
        assert(all[i as int] == parents@[i as int].tree@);
        if !has_tree(&res, &parents[i].tree) {
            let ghost before = tree_ids(res@);
            res.push(GitTree(parents[i].tree));
            proof {
                let after = tree_ids(res@);
                assert(after =~= before.push(all[i as int]));
                assert forall|t: Seq<u8>| after.contains(t) implies all.contains(t) by {
                    let k = after.index_of(t);
                    if k < before.len() {
                        assert(before[k] == t);
                        assert(before.contains(t));
                    }
                }
                assert forall|j: int| 0 <= j < i + 1 implies after.contains(#[trigger] all[j]) by {
                    if j < i {
                        let k = before.index_of(all[j]);
                        assert(after[k] == all[j]);
                    } else {
                        assert(after[before.len() as int] == all[j]);
                    }
                }
            }
        }
        i = i + 1;
    }
    proof {
        assert(tree_ids(res@).to_set() =~= all.to_set()) by {
            assert forall|t: Seq<u8>| all.contains(t) implies tree_ids(res@).contains(t) by {
                let j = all.index_of(t);
                assert(all[j] == t);
            }
        }
    }
    res
}

/// What an import has done so far.
#[verifier::ext_equal]
pub struct ImportModel<C, F> {
    /// Whether derived trees are to be checked in the end.
    pub checks_trees: bool,
    /// Whether changesets keep the id of the Git commit for hg-git.
    pub keeps_hggit_ids: bool,
    /// The changeset of each commit that was imported.
    pub imported: Map<Seq<u8>, C>,
    /// The frozen changesets, in the order in which they were recorded.
    pub frozen: Seq<F>,
    /// The commits that were imported, in the order of the walk.
    pub commits: Seq<GitCommit>,
    /// The ids of the changesets that they became.
    pub changeset_ids: Seq<C>,
}

impl<C, F> ImportModel<C, F> {
    /// An import that has seen no commit.
    pub open spec fn initial(checks_trees: bool, keeps_hggit_ids: bool) -> Self {
        ImportModel {
            checks_trees,
            keeps_hggit_ids,
            imported: Map::empty(),
            frozen: Seq::empty(),
            commits: Seq::empty(),
            changeset_ids: Seq::empty(),
        }
    }

    /// After `commit` became the frozen changeset `changeset` with the id `id`.
    pub open spec fn after(self, commit: GitCommit, changeset: F, id: C) -> Self {
        ImportModel {
            checks_trees: self.checks_trees,
            keeps_hggit_ids: self.keeps_hggit_ids,
            imported: self.imported.insert(commit.id@, id),
            frozen: self.frozen.push(changeset),
            commits: self.commits.push(commit),
            changeset_ids: self.changeset_ids.push(id),
        }
    }

    /// After all of `records`, in their order.
    pub open spec fn after_all(self, records: Seq<(GitCommit, F, C)>) -> Self
        decreases records.len(),
    {
        if records.len() == 0 {
            self
        } else {
            let last = records.last();
            self.after_all(records.drop_last()).after(last.0, last.1, last.2)
        }
    }
}

/// An import under way. `C` is the type of changeset ids, `F` that of frozen changesets.
pub struct GitImport<C, F> {
    derive_trees: bool,
    hggit_compatibility: bool,
    import_map: AssocMap<Oid, C>,
    changesets: Vec<F>,
    commits: Ghost<Seq<GitCommit>>,
    ids: Ghost<Seq<C>>,
}

impl<C, F> GitImport<C, F> {
    /// The import knows what a walk over its commits tells, and has one changeset for each of
    /// them.
    #[verifier::type_invariant]
    spec fn wf(self) -> bool {
        &&& self.commits@.len() == self.ids@.len()
        &&& self.commits@.len() == self.changesets@.len()
        &&& import_walk(self.commits@, self.ids@) == Ok::<Map<Seq<u8>, C>, ImportError>(
            self.import_map@,
        )
    }
}

impl<C, F> View for GitImport<C, F> {
    type V = ImportModel<C, F>;

    closed spec fn view(&self) -> ImportModel<C, F> {
        ImportModel {
            checks_trees: self.derive_trees,
            keeps_hggit_ids: self.hggit_compatibility,
            imported: self.import_map@,
            frozen: self.changesets@,
            commits: self.commits@,
            changeset_ids: self.ids@,
        }
    }
}

impl<C: Copy, F> GitImport<C, F> {
    /// An import that has seen no commit.
    pub fn new(derive_trees: bool, hggit_compatibility: bool) -> (import: Self)
        ensures
            import@ == ImportModel::<C, F>::initial(derive_trees, hggit_compatibility),
            import@.checks_trees == derive_trees,
            import@.keeps_hggit_ids == hggit_compatibility,
            import@.imported == Map::<Seq<u8>, C>::empty(),
            import@.frozen.len() == 0,
            import@.commits.len() == 0,
            import@.changeset_ids.len() == 0,
    {
        GitImport {
            derive_trees,
            hggit_compatibility,
            import_map: AssocMap::new(),
            changesets: Vec::new(),
            commits: Ghost(Seq::empty()),
            ids: Ghost(Seq::empty()),
        }
    }

    /// The changesets of `parents`, in their order.
    fn find_parents(&self, parents: &Vec<ParentCommit>) -> (res: Result<Vec<C>, ImportError>)
        ensures
            match res {
                Ok(ids) => parent_changesets(self@.imported, parents@) == Ok::<
                    Seq<C>,
                    ImportError,
                >(ids@),
                Err(e) => parent_changesets(self@.imported, parents@) == Err::<
                    Seq<C>,
                    ImportError,
                >(e),
            },
    {
        let mut ids: Vec<C> = Vec::new();
        let mut i: usize = 0;
        assert(parents@.take(0) =~= Seq::<ParentCommit>::empty());
        while i < parents.len()
            invariant
                i <= parents@.len(),
                parent_changesets(self@.imported, parents@.take(i as int)) == Ok::<
                    Seq<C>,
                    ImportError,
                >(ids@),
            decreases parents@.len() - i,
        {
            let ghost next = parents@.take(i + 1);
            assert(next.drop_last() =~= parents@.take(i as int));
            assert(next.last() == parents@[i as int]);
            match self.import_map.get(&parents[i].id) {
                Some(id) => {
                    ids.push(*id);
                },
                None => {
                    proof {
                        lemma_parent_error_stays(self@.imported, parents@, i + 1);
                    }
                    return Err(ImportError::NotImported(parents[i].id));
                },
            }
            i = i + 1;
        }
        assert(parents@.take(i as int) =~= parents@);
        Ok(ids)
    }

    /// Begins with `commit`: it needs an author, and its parents must have been imported.
    pub fn start_commit(self, commit: GitCommit) -> (res: Result<StartedCommit<C, F>, ImportError>)
        ensures
            match res {
                Ok(started) => {
                    &&& started.import() == self
                    &&& started.commit() == commit
                    &&& commit_parents(self@.imported, commit) == Ok::<Seq<C>, ImportError>(
                        started.parents(),
                    )
                },
                Err(e) => commit_parents(self@.imported, commit) == Err::<Seq<C>, ImportError>(e),
            },
            res is Ok <==> commit.author is Some && forall|k: int|
                0 <= k < commit.parents@.len() ==> self@.imported.contains_key(
                    (#[trigger] commit.parents@[k]).id.raw@,
                ),
            res matches Ok(started) ==> started.parents().len() == commit.parents@.len(),
            res matches Ok(started) ==> forall|k: int|
                0 <= k < commit.parents@.len() ==> #[trigger] started.parents()[k]
                    == self@.imported[commit.parents@[k].id.raw@],
            commit.author is None ==> res is Err && res->Err_0 == ImportError::NoAuthor(commit.id),
    {
        proof {
            if commit.author is Some {
                law_parents_decide(self@.imported, commit);
                if forall|k: int|
                    0 <= k < commit.parents@.len() ==> self@.imported.contains_key(
                        (#[trigger] commit.parents@[k]).id.raw@,
                    ) {
                    assert forall|k: int|
                        0 <= k < commit.parents@.len() implies self@.imported.contains_key(
                        (#[trigger] commit.parents@[k]).id@,
                    ) by {
                        assert(self@.imported.contains_key(commit.parents@[k].id.raw@));
                    }
                }
                if commit_parents(self@.imported, commit) is Ok {
                    assert forall|k: int|
                        0 <= k < commit.parents@.len() implies self@.imported.contains_key(
                        (#[trigger] commit.parents@[k]).id.raw@,
                    ) by {
                        assert(self@.imported.contains_key(commit.parents@[k].id@));
                    }
                }
            }
        }
        if commit.author.is_none() {
            return Err(ImportError::NoAuthor(commit.id));
        }
        let parents: Vec<C> = match self.find_parents(&commit.parents) {
            Ok(parents) => parents,
            Err(e) => {
                return Err(e);
            },
        };
        Ok(StartedCommit { import: self, commit, parents })
    }

    /// Ends the walk: the changesets to save, one for each commit and in the order of the
    /// walk, and what is left to do once they are saved.
    pub fn finish(self) -> (res: (Vec<F>, ImportedCommits<C>))
        ensures
            res.0@ == self@.frozen,
            res.0@.len() == self@.commits.len(),
            res.1@ == self@.imported,
            self@.commits.len() == self@.changeset_ids.len(),
            import_walk(self@.commits, self@.changeset_ids) == Ok::<
                Map<Seq<u8>, C>,
                ImportError,
            >(res.1@),
            res.1.checks_trees() == self@.checks_trees,
    {
        proof {
            use_type_invariant(&self);
        }
        (
            self.changesets,
            ImportedCommits { derive_trees: self.derive_trees, import_map: self.import_map },
        )
    }
}

/// An import that waits for the file changes of a commit.
pub struct StartedCommit<C, F> {
    import: GitImport<C, F>,
    commit: GitCommit,
    parents: Vec<C>,
}

impl<C, F> StartedCommit<C, F> {
    /// The commit has an author, and its parents have been imported.
    #[verifier::type_invariant]
    spec fn wf(self) -> bool {
        commit_parents(self.import.import_map@, self.commit) == Ok::<Seq<C>, ImportError>(
            self.parents@,
        )
    }
}

impl<C: Copy, F> StartedCommit<C, F> {
    /// The import as it was before the commit.
    pub closed spec fn import(&self) -> GitImport<C, F> {
        self.import
    }

    /// The commit.
    pub closed spec fn commit(&self) -> GitCommit {
        self.commit
    }

    /// The changesets of its parents.
    pub closed spec fn parents(&self) -> Seq<C> {
        self.parents@
    }

    /// The trees between which the differences of the commit are to be found.
    pub fn diff(&self) -> (diff: DiffRequest)
        ensures
            diff.root == GitTree(self.commit().tree),
            tree_ids(diff.parents@).no_duplicates(),
            tree_ids(diff.parents@).to_set() == parent_trees(self.commit().parents@).to_set(),
    {
        DiffRequest {
            root: GitTree(self.commit.tree),
            parents: distinct_parent_trees(&self.commit.parents),
        }
    }

    /// Ends with the commit once its file changes are known: the changeset to freeze.
    pub fn finish_commit<K>(self, file_changes: FileChanges<K>) -> (res: (
        FinishedCommit<C, F>,
        BonsaiChangesetMut<C, K>,
    ))
        requires
            i32::MIN <= self.commit().offset_minutes * 60 <= i32::MAX,
        ensures
            res.0.import() == self.import(),
            res.0.commit() == self.commit(),
            res.1@ == changeset_of(
                self.commit()@,
                self.parents(),
                file_changes@,
                self.import()@.keeps_hggit_ids,
            ),
            res.1.file_changes == file_changes,
            res.1.parents@ == self.parents(),
            Some(res.1.author@) == optional_text(self.commit().author),
            res.1.author@ == self.commit().author->0@,
            res.1.author_date.seconds == self.commit().seconds,
            res.1.author_date.offset_seconds == self.commit().offset_minutes * 60,
            res.1.committer is None,
            res.1.committer_date is None,
            self.commit().message matches Some(message) ==> res.1.message@ == message@,
            self.commit().message is None ==> res.1.message@.len() == 0,
            self.import()@.keeps_hggit_ids ==> res.1.extra@.len() == 1 && res.1.extra@[0].0@
                == "convert_revision"@ && res.1.extra@[0].1@ == encode_utf8(
                hex_text(self.commit().id.raw@),
            ),
            !self.import()@.keeps_hggit_ids ==> res.1.extra@.len() == 0,
    {
        proof {
            use_type_invariant(&self);
        }
        let ghost commit = self.commit;
        let id: Oid = self.commit.id;
        let mut extra: Vec<(String, Vec<u8>)> = Vec::new();
        if self.import.hggit_compatibility {
            let hex: String = id.to_hex();
            extra.push((HGGIT_COMMIT_ID_EXTRA.to_string(), hex.as_str().as_bytes_vec()));
        }
        assert(extras_view(extra@) =~= extra_of(id@, self.import@.keeps_hggit_ids));
        let author: String = self.commit.author.unwrap();
        let message: String = match self.commit.message {
            Some(message) => message,
            None => String::new(),
        };
        let changeset: BonsaiChangesetMut<C, K> = BonsaiChangesetMut {
            parents: self.parents,
            author,
            author_date: Timestamp {
                seconds: self.commit.seconds,
                offset_seconds: self.commit.offset_minutes * 60,
            },
            committer: None,
            committer_date: None,
            message,
            extra,
            file_changes,
        };
        (FinishedCommit { import: self.import, id, commit: Ghost(commit) }, changeset)
    }
}

/// An import that waits for the frozen changeset of a commit.
pub struct FinishedCommit<C, F> {
    import: GitImport<C, F>,
    id: Oid,
    commit: Ghost<GitCommit>,
}

impl<C, F> FinishedCommit<C, F> {
    /// The commit can be imported.
    #[verifier::type_invariant]
    spec fn wf(self) -> bool {
        &&& self.id == self.commit@.id
        &&& commit_parents(self.import.import_map@, self.commit@) is Ok
    }
}

impl<C: Copy, F> FinishedCommit<C, F> {
    /// The import as it was before the commit.
    pub closed spec fn import(&self) -> GitImport<C, F> {
        self.import
    }

    /// The commit.
    pub closed spec fn commit(&self) -> GitCommit {
        self.commit@
    }

    /// Records the frozen changeset of the commit and its id, and goes on with the import.
    pub fn record(self, changeset: F, changeset_id: C) -> (import: GitImport<C, F>)
        ensures
            import@ == self.import()@.after(self.commit(), changeset, changeset_id),
            import@.imported == self.import()@.imported.insert(
                self.commit().id.raw@,
                changeset_id,
            ),
            import@.frozen == self.import()@.frozen.push(changeset),
            import@.commits == self.import()@.commits.push(self.commit()),
            import@.changeset_ids == self.import()@.changeset_ids.push(changeset_id),
            import@.checks_trees == self.import()@.checks_trees,
            import@.keeps_hggit_ids == self.import()@.keeps_hggit_ids,
    {
        proof {
            use_type_invariant(&self);
            use_type_invariant(&self.import);
        }
        let ghost commits = self.import.commits@.push(self.commit@);
        let ghost ids = self.import.ids@.push(changeset_id);
        let GitImport { derive_trees, hggit_compatibility, import_map, changesets, .. } =
            self.import;
        let mut import_map: AssocMap<Oid, C> = import_map;
        let mut changesets: Vec<F> = changesets;
        import_map.insert(self.id, changeset_id);
        changesets.push(changeset);
        assert(commits.drop_last() =~= self.import.commits@);
        assert(ids.drop_last() =~= self.import.ids@);
        GitImport {
            derive_trees,
            hggit_compatibility,
            import_map,
            changesets,
            commits: Ghost(commits),
            ids: Ghost(ids),
        }
    }
}

/// The commits of an import whose changesets are saved.
pub struct ImportedCommits<C> {
    derive_trees: bool,
    import_map: AssocMap<Oid, C>,
}

impl<C> View for ImportedCommits<C> {
    type V = Map<Seq<u8>, C>;

    closed spec fn view(&self) -> Map<Seq<u8>, C> {
        self.import_map@
    }
}

impl<C: Copy> ImportedCommits<C> {
    /// Whether derived trees are to be checked.
    pub closed spec fn checks_trees(&self) -> bool {
        self.derive_trees
    }

    /// The changeset that a reference to the commit `id` stands for.
    pub fn reference(&self, id: &Oid) -> (res: Option<C>)
        ensures
            match res {
                Some(changeset) => self@.contains_key(id@) && changeset == self@[id@],
                None => !self@.contains_key(id@),
            },
    {
        match self.import_map.get(id) {
            Some(changeset) => Some(*changeset),
            None => None,
        }
    }

    /// The commits whose trees are to be derived and checked, with their changesets.
    pub fn trees_to_check(&self) -> (res: Vec<(Oid, C)>)
        ensures
            keys_distinct(res@),
            entries_map(res@) == if self.checks_trees() {
                self@
            } else {
                Map::<Seq<u8>, C>::empty()
            },
    {
        let mut res: Vec<(Oid, C)> = Vec::new();
        if !self.derive_trees {
            return res;
        }
        let entries: &Vec<(Oid, C)> = self.import_map.entries();
        let mut i: usize = 0;
        while i < entries.len()
            invariant
                i <= entries@.len(),
                res@ == entries@.take(i as int),
            decreases entries@.len() - i,
        {
            res.push(entries[i]);
            assert(entries@.take(i + 1) =~= entries@.take(i as int).push(entries@[i as int]));
            i = i + 1;
        }
        assert(res@ =~= entries@);
        res
    }

    /// How many trees are valid once all of them have been checked; `None` if they are not
    /// to be checked.
    pub fn valid_trees(&self) -> (res: Option<usize>)
        ensures
            match res {
                Some(n) => self.checks_trees() && n == self@.len(),
                None => !self.checks_trees(),
            },
    {
        if self.derive_trees {
            Some(self.import_map.len())
        } else {
            None
        }
    }
}

/// Holds the tree that was derived for the commit `commit` against the tree `expected` that
/// it has in Git.
pub fn check_tree(commit: Oid, expected: Oid, derived: &[u8]) -> (res: Result<(), ImportError>)
    ensures
        match res {
            Ok(_) => derived@ == expected@,
            Err(ImportError::InvalidTreeId(id)) => derived@.len() != 20 && id == commit,
            Err(ImportError::InvalidTree { commit: c, derived: d, expected: e }) => {
                &&& derived@.len() == 20
                &&& derived@ != expected@
                &&& c == commit
                &&& d@ == derived@
                &&& e == expected
            },
            Err(_) => false,
        },
{
    match Oid::from_bytes(derived) {
        Some(id) => {
            if expected.same(&id) {
                Ok(())
            } else {
                Err(ImportError::InvalidTree { commit, derived: id, expected })
            }
        },
        None => Err(ImportError::InvalidTreeId(commit)),
    }
}

/// What a walk over `commits` knows in the end, if the commits become the changesets `ids`
/// one after the other: the changeset of each commit, or what stopped the import.
pub open spec fn import_walk<C>(commits: Seq<GitCommit>, ids: Seq<C>) -> Result<
    Map<Seq<u8>, C>,
    ImportError,
>
    decreases commits.len(),
{
    if commits.len() == 0 {
        Ok(Map::empty())
    } else {
        match import_walk(commits.drop_last(), ids.drop_last()) {
            Err(e) => Err(e),
            Ok(imported) => match commit_parents(imported, commits.last()) {
                Err(e) => Err(e),
                Ok(_) => Ok(imported.insert(commits.last().id@, ids.last())),
            },
        }
    }
}

/// Whether the commit `id` is one of the first `n` commits.
pub open spec fn comes_before(commits: Seq<GitCommit>, n: int, id: Seq<u8>) -> bool {
    exists|j: int| 0 <= j < n && (#[trigger] commits[j]).id@ == id
}

/// Whether every commit comes after its parents.
pub open spec fn parents_first(commits: Seq<GitCommit>) -> bool {
    forall|i: int, k: int|
        0 <= i < commits.len() && 0 <= k < commits[i].parents@.len() ==> comes_before(
            commits,
            i,
            (#[trigger] commits[i].parents@[k]).id@,
        )
}

/// Whether every commit has an author.
pub open spec fn all_have_authors(commits: Seq<GitCommit>) -> bool {
    forall|i: int| 0 <= i < commits.len() ==> (#[trigger] commits[i]).author is Some
}

/// Whether no commit occurs twice.
pub open spec fn commits_distinct(commits: Seq<GitCommit>) -> bool {
    forall|i: int, j: int|
        0 <= i < j < commits.len() ==> (#[trigger] commits[i]).id@ != (#[trigger] commits[j]).id@
}

proof fn lemma_known_parents<C>(imported: Map<Seq<u8>, C>, parents: Seq<ParentCommit>)
    requires
        forall|k: int|
            0 <= k < parents.len() ==> imported.contains_key((#[trigger] parents[k]).id@),
    ensures
        parent_changesets(imported, parents) == Ok::<Seq<C>, ImportError>(
            Seq::new(parents.len(), |k: int| imported[parents[k].id@]),
        ),
    decreases parents.len(),
{
    let all = Seq::new(parents.len(), |k: int| imported[parents[k].id@]);
    if parents.len() > 0 {
        let front = parents.drop_last();
        assert forall|k: int| 0 <= k < front.len() implies imported.contains_key(
            (#[trigger] front[k]).id@,
        ) by {
            assert(front[k] == parents[k]);
        }
        lemma_known_parents(imported, front);
        assert(imported.contains_key(parents[parents.len() - 1].id@));
        assert(all =~= Seq::new(front.len(), |k: int| imported[front[k].id@]).push(
            imported[parents.last().id@],
        ));
    } else {
        assert(all =~= Seq::<C>::empty());
    }
}

/// A commit with an author is refused exactly if one of its parents was not imported; else
/// its changeset has the changesets of the parents as its parents, in the same order.
pub proof fn law_parents_decide<C>(imported: Map<Seq<u8>, C>, commit: GitCommit)
    requires
        commit.author is Some,
    ensures
        commit_parents(imported, commit) is Ok <==> forall|k: int|
            0 <= k < commit.parents@.len() ==> imported.contains_key(
                (#[trigger] commit.parents@[k]).id@,
            ),
        commit_parents(imported, commit) matches Ok(ids) ==> ids =~= Seq::new(
            commit.parents@.len(),
            |k: int| imported[commit.parents@[k].id@],
        ),
{
    let parents = commit.parents@;
    if forall|k: int|
        0 <= k < parents.len() ==> imported.contains_key((#[trigger] parents[k]).id@) {
        lemma_known_parents(imported, parents);
    } else {
        let k = choose|k: int|
            0 <= k < parents.len() && !imported.contains_key((#[trigger] parents[k]).id@);
        lemma_unknown_parent(imported, parents, k);
    }
}

proof fn lemma_unknown_parent<C>(imported: Map<Seq<u8>, C>, parents: Seq<ParentCommit>, k: int)
    requires
        0 <= k < parents.len(),
        !imported.contains_key(parents[k].id@),
    ensures
        parent_changesets(imported, parents) is Err,
    decreases parents.len(),
{
    if k < parents.len() - 1 {
        lemma_unknown_parent(imported, parents.drop_last(), k);
    }
}

/// A commit is refused for its first parent that was not imported.
pub proof fn law_first_unknown_parent_is_named<C>(
    imported: Map<Seq<u8>, C>,
    commit: GitCommit,
    k: int,
)
    requires
        commit.author is Some,
        0 <= k < commit.parents@.len(),
        forall|j: int|
            0 <= j < k ==> imported.contains_key((#[trigger] commit.parents@[j]).id@),
        !imported.contains_key(commit.parents@[k].id@),
    ensures
        commit_parents(imported, commit) == Err::<Seq<C>, ImportError>(
            ImportError::NotImported(commit.parents@[k].id),
        ),
{
    let known = commit.parents@.take(k);
    assert forall|j: int| 0 <= j < known.len() implies imported.contains_key(
        (#[trigger] known[j]).id@,
    ) by {
        assert(known[j] == commit.parents@[j]);
    }
    lemma_known_parents(imported, known);
    let upto = commit.parents@.take(k + 1);
    assert(upto.drop_last() =~= known);
    assert(upto.last() == commit.parents@[k]);
    lemma_parent_error_stays(imported, commit.parents@, k + 1);
}

proof fn lemma_front_of_walk(commits: Seq<GitCommit>)
    requires
        commits.len() > 0,
        parents_first(commits),
        all_have_authors(commits),
    ensures
        parents_first(commits.drop_last()),
        all_have_authors(commits.drop_last()),
{
    let front = commits.drop_last();
    assert forall|i: int| 0 <= i < front.len() implies (#[trigger] front[i]).author is Some by {
        assert(commits[i].author is Some);
    }
    assert forall|i: int, k: int|
        0 <= i < front.len() && 0 <= k < front[i].parents@.len() implies comes_before(
        front,
        i,
        (#[trigger] front[i].parents@[k]).id@,
    ) by {
        assert(commits[i].parents@[k] == front[i].parents@[k]);
        let j = choose|j: int|
            0 <= j < i && (#[trigger] commits[j]).id@ == commits[i].parents@[k].id@;
        assert(front[j].id@ == front[i].parents@[k].id@);
    }
}

/// After a walk exactly the commits that it came to have been imported.
pub proof fn law_walk_imports_its_commits<C>(commits: Seq<GitCommit>, ids: Seq<C>, id: Seq<u8>)
    requires
        import_walk(commits, ids) is Ok,
    ensures
        import_walk(commits, ids)->Ok_0.contains_key(id) <==> comes_before(
            commits,
            commits.len() as int,
            id,
        ),
    decreases commits.len(),
{
    if commits.len() > 0 {
        let front = commits.drop_last();
        let n = commits.len() - 1;
        law_walk_imports_its_commits(front, ids.drop_last(), id);
        if comes_before(front, n, id) {
            let j = choose|j: int| 0 <= j < n && (#[trigger] front[j]).id@ == id;
            assert(commits[j].id@ == id);
        }
        if comes_before(commits, n + 1, id) {
            let j = choose|j: int| 0 <= j < n + 1 && (#[trigger] commits[j]).id@ == id;
            if j < n {
                assert(front[j].id@ == id);
            }
        }
        if commits.last().id@ == id {
            assert(commits[n].id@ == id);
        }
    }
}

/// A walk goes through exactly if every commit has an author and comes after its parents, as
/// in reversed topological order.
pub proof fn law_walk_needs_authors_and_parents_first<C>(commits: Seq<GitCommit>, ids: Seq<C>)
    ensures
        import_walk(commits, ids) is Ok <==> parents_first(commits) && all_have_authors(commits),
    decreases commits.len(),
{
    if commits.len() > 0 {
        let front = commits.drop_last();
        let last = commits.last();
        let n = commits.len() - 1;
        law_walk_needs_authors_and_parents_first(front, ids.drop_last());
        if parents_first(commits) && all_have_authors(commits) {
            lemma_front_of_walk(commits);
            let imported = import_walk(front, ids.drop_last())->Ok_0;
            assert(commits[n].author is Some);
            assert forall|k: int| 0 <= k < last.parents@.len() implies imported.contains_key(
                (#[trigger] last.parents@[k]).id@,
            ) by {
                let id = last.parents@[k].id@;
                assert(comes_before(commits, n, commits[n].parents@[k].id@));
                let j = choose|j: int| 0 <= j < n && (#[trigger] commits[j]).id@ == id;
                assert(front[j].id@ == id);
                law_walk_imports_its_commits(front, ids.drop_last(), id);
            }
            law_parents_decide(imported, last);
        }
        if import_walk(commits, ids) is Ok {
            let imported = import_walk(front, ids.drop_last())->Ok_0;
            law_parents_decide(imported, last);
            assert forall|i: int| 0 <= i < commits.len() implies (
            #[trigger] commits[i]).author is Some by {
                if i < n {
                    assert(front[i].author is Some);
                }
            }
            assert forall|i: int, k: int|
                0 <= i < commits.len() && 0 <= k < commits[i].parents@.len() implies comes_before(
                commits,
                i,
                (#[trigger] commits[i].parents@[k]).id@,
            ) by {
                let id = commits[i].parents@[k].id@;
                if i < n {
                    assert(front[i].parents@[k].id@ == id);
                    assert(comes_before(front, i, id));
                } else {
                    assert(imported.contains_key(last.parents@[k].id@));
                    law_walk_imports_its_commits(front, ids.drop_last(), id);
                    assert(comes_before(front, n, id));
                }
                let j = choose|j: int| 0 <= j < i && (#[trigger] front[j]).id@ == id;
                assert(commits[j].id@ == id);
            }
        }
    }
}

/// The first commit that cannot be imported decides why the import stops.
pub proof fn law_first_bad_commit_stops_the_walk<C>(
    commits: Seq<GitCommit>,
    ids: Seq<C>,
    i: int,
)
    requires
        commits.len() == ids.len(),
        0 <= i < commits.len(),
        import_walk(commits.take(i), ids.take(i)) is Ok,
        commit_parents(import_walk(commits.take(i), ids.take(i))->Ok_0, commits[i]) is Err,
    ensures
        import_walk(commits, ids) is Err,
        import_walk(commits, ids)->Err_0 == commit_parents(
            import_walk(commits.take(i), ids.take(i))->Ok_0,
            commits[i],
        )->Err_0,
    decreases commits.len(),
{
    let front = commits.drop_last();
    if i < front.len() {
        assert(front.take(i) =~= commits.take(i));
        assert(ids.drop_last().take(i) =~= ids.take(i));
        law_first_bad_commit_stops_the_walk(front, ids.drop_last(), i);
    } else {
        assert(front =~= commits.take(i));
        assert(ids.drop_last() =~= ids.take(i));
    }
}

proof fn lemma_walk_prefix<C>(commits: Seq<GitCommit>, ids: Seq<C>, i: int)
    requires
        commits.len() == ids.len(),
        import_walk(commits, ids) is Ok,
        0 <= i < commits.len(),
    ensures
        import_walk(commits.take(i), ids.take(i)) is Ok,
        commit_parents(import_walk(commits.take(i), ids.take(i))->Ok_0, commits[i]) is Ok,
    decreases commits.len(),
{
    let front = commits.drop_last();
    if i < front.len() {
        assert(front.take(i) =~= commits.take(i));
        assert(ids.drop_last().take(i) =~= ids.take(i));
        lemma_walk_prefix(front, ids.drop_last(), i);
    } else {
        assert(front =~= commits.take(i));
        assert(ids.drop_last() =~= ids.take(i));
    }
}

/// What a walk knows of a commit is the id of one of its changesets.
proof fn lemma_walk_value<C>(commits: Seq<GitCommit>, ids: Seq<C>, id: Seq<u8>) -> (j: int)
    requires
        commits.len() == ids.len(),
        import_walk(commits, ids) is Ok,
        import_walk(commits, ids)->Ok_0.contains_key(id),
    ensures
        0 <= j < commits.len(),
        commits[j].id@ == id,
        ids[j] == import_walk(commits, ids)->Ok_0[id],
    decreases commits.len(),
{
    if commits.last().id@ == id {
        commits.len() - 1
    } else {
        lemma_walk_value(commits.drop_last(), ids.drop_last(), id)
    }
}

/// Where two imports agree on the parents of a commit, they make the same changeset of it.
pub proof fn law_agreeing_imports_make_one_changeset<C, K>(
    a: Map<Seq<u8>, C>,
    b: Map<Seq<u8>, C>,
    commit_a: GitCommit,
    commit_b: GitCommit,
    file_changes: Map<Seq<Seq<u8>>, Option<FileChange<K>>>,
    hggit_compatibility: bool,
)
    requires
        commit_a@ == commit_b@,
        forall|k: int|
            0 <= k < commit_a@.parents.len() ==> {
                let id = (#[trigger] commit_a@.parents[k]).0;
                &&& a.contains_key(id) <==> b.contains_key(id)
                &&& a.contains_key(id) ==> a[id] == b[id]
            },
    ensures
        commit_parents(a, commit_a) is Ok <==> commit_parents(b, commit_b) is Ok,
        commit_parents(a, commit_a) is Ok ==> commit_parents(a, commit_a)->Ok_0 == commit_parents(
            b,
            commit_b,
        )->Ok_0,
        commit_parents(a, commit_a) is Ok ==> changeset_of(
            commit_a@,
            commit_parents(a, commit_a)->Ok_0,
            file_changes,
            hggit_compatibility,
        ) == changeset_of(
            commit_b@,
            commit_parents(b, commit_b)->Ok_0,
            file_changes,
            hggit_compatibility,
        ),
{
    let pa = commit_a.parents@;
    let pb = commit_b.parents@;
    assert(commit_a@.parents.len() == pa.len() && commit_b@.parents.len() == pb.len());
    assert forall|k: int| 0 <= k < pa.len() implies {
        let id = (#[trigger] pa[k]).id@;
        &&& id == pb[k].id@
        &&& a.contains_key(id) <==> b.contains_key(id)
        &&& a.contains_key(id) ==> a[id] == b[id]
    } by {
        assert(commit_a@.parents[k] == (pa[k].id@, pa[k].tree@));
        assert(commit_b@.parents[k] == (pb[k].id@, pb[k].tree@));
    }
    if commit_a.author is Some {
        assert(commit_b.author is Some);
        law_parents_decide(a, commit_a);
        law_parents_decide(b, commit_b);
        if commit_parents(a, commit_a) is Ok {
            assert forall|k: int| 0 <= k < pb.len() implies b.contains_key(
                (#[trigger] pb[k]).id@,
            ) by {
                assert(a.contains_key(pa[k].id@));
            }
        }
        if commit_parents(b, commit_b) is Ok {
            assert forall|k: int| 0 <= k < pa.len() implies a.contains_key(
                (#[trigger] pa[k]).id@,
            ) by {
                assert(b.contains_key(pb[k].id@));
            }
        }
        if commit_parents(a, commit_a) is Ok {
            let ids_a = commit_parents(a, commit_a)->Ok_0;
            let ids_b = commit_parents(b, commit_b)->Ok_0;
            assert(ids_a =~= ids_b) by {
                assert forall|k: int| 0 <= k < pa.len() implies ids_a[k] == ids_b[k] by {
                    assert(a.contains_key(pa[k].id@));
                }
            }
        }
    } else {
        assert(commit_b.author is None);
    }
}

/// The changeset that commit number `i` of a walk becomes. `files` says how a tree differs
/// from the trees of the parents.
pub open spec fn walk_changeset<C, K>(
    commits: Seq<GitCommit>,
    ids: Seq<C>,
    i: int,
    hggit_compatibility: bool,
    files: spec_fn(Seq<u8>, Set<Seq<u8>>) -> Map<Seq<Seq<u8>>, Option<FileChange<K>>>,
) -> ChangesetModel<C, K> {
    changeset_of(
        commits[i]@,
        commit_parents(import_walk(commits.take(i), ids.take(i))->Ok_0, commits[i])->Ok_0,
        files(commits[i].tree@, parent_trees(commits[i].parents@).to_set()),
        hggit_compatibility,
    )
}

/// Whether every commit of a walk has the id of the changeset that it becomes, where `id_of`
/// says which id a changeset gets.
pub open spec fn ids_follow<C, K>(
    commits: Seq<GitCommit>,
    ids: Seq<C>,
    hggit_compatibility: bool,
    files: spec_fn(Seq<u8>, Set<Seq<u8>>) -> Map<Seq<Seq<u8>>, Option<FileChange<K>>>,
    id_of: spec_fn(ChangesetModel<C, K>) -> C,
) -> bool {
    &&& commits.len() == ids.len()
    &&& import_walk(commits, ids) is Ok
    &&& forall|i: int|
        0 <= i < commits.len() ==> #[trigger] ids[i] == id_of(
            walk_changeset(commits, ids, i, hggit_compatibility, files),
        )
}

/// Whether commits with one id are one commit.
pub open spec fn ids_identify(a: Seq<GitCommit>, b: Seq<GitCommit>) -> bool {
    forall|i: int, j: int|
        #![trigger a[i], b[j]]
        0 <= i < a.len() && 0 <= j < b.len() && a[i].id@ == b[j].id@ ==> a[i]@ == b[j]@
}

/// Two imports, of repositories that may differ in everything else, give a commit that both
/// come to the same changeset id: it depends on the commit, its ancestors and the hg-git
/// setting, not on the order of the walk or on other commits. For `a` and `b` the same
/// import, a commit that occurs twice gets one id.
pub proof fn law_shared_commits_get_one_id<C, K>(
    a: Seq<GitCommit>,
    ids_a: Seq<C>,
    b: Seq<GitCommit>,
    ids_b: Seq<C>,
    hggit_compatibility: bool,
    files: spec_fn(Seq<u8>, Set<Seq<u8>>) -> Map<Seq<Seq<u8>>, Option<FileChange<K>>>,
    id_of: spec_fn(ChangesetModel<C, K>) -> C,
    i: int,
    j: int,
)
    requires
        ids_identify(a, b),
        ids_follow(a, ids_a, hggit_compatibility, files, id_of),
        ids_follow(b, ids_b, hggit_compatibility, files, id_of),
        0 <= i < a.len(),
        0 <= j < b.len(),
        a[i].id@ == b[j].id@,
    ensures
        ids_a[i] == ids_b[j],
    decreases i,
{
    lemma_walk_prefix(a, ids_a, i);
    lemma_walk_prefix(b, ids_b, j);
    let known_a = import_walk(a.take(i), ids_a.take(i))->Ok_0;
    let known_b = import_walk(b.take(j), ids_b.take(j))->Ok_0;
    let pa = a[i].parents@;
    let pb = b[j].parents@;
    assert(a[i]@ == b[j]@);
    assert(a[i]@.parents.len() == pa.len() && b[j]@.parents.len() == pb.len());
    law_parents_decide(known_a, a[i]);
    law_parents_decide(known_b, b[j]);
    assert forall|k: int| 0 <= k < a[i]@.parents.len() implies {
        let id = (#[trigger] a[i]@.parents[k]).0;
        &&& known_a.contains_key(id) <==> known_b.contains_key(id)
        &&& known_a.contains_key(id) ==> known_a[id] == known_b[id]
    } by {
        assert(a[i]@.parents[k] == (pa[k].id@, pa[k].tree@));
        assert(b[j]@.parents[k] == (pb[k].id@, pb[k].tree@));
        let id = pa[k].id@;
        assert(known_a.contains_key(pa[k].id@));
        assert(known_b.contains_key(pb[k].id@));
        let x = lemma_walk_value(a.take(i), ids_a.take(i), id);
        let y = lemma_walk_value(b.take(j), ids_b.take(j), id);
        assert(a[x] == a.take(i)[x] && b[y] == b.take(j)[y]);
        law_shared_commits_get_one_id(
            a,
            ids_a,
            b,
            ids_b,
            hggit_compatibility,
            files,
            id_of,
            x,
            y,
        );
    }
    assert(parent_trees(pa) =~= parent_trees(pb)) by {
        assert forall|k: int| 0 <= k < pa.len() implies parent_trees(pa)[k] == parent_trees(
            pb,
        )[k] by {
            assert(a[i]@.parents[k] == (pa[k].id@, pa[k].tree@));
            assert(b[j]@.parents[k] == (pb[k].id@, pb[k].tree@));
        }
    }
    let changes = files(a[i].tree@, parent_trees(pa).to_set());
    law_agreeing_imports_make_one_changeset(
        known_a,
        known_b,
        a[i],
        b[j],
        changes,
        hggit_compatibility,
    );
    assert(walk_changeset(a, ids_a, i, hggit_compatibility, files) == walk_changeset(
        b,
        ids_b,
        j,
        hggit_compatibility,
        files,
    ));
    assert(ids_a[i] == id_of(walk_changeset(a, ids_a, i, hggit_compatibility, files)));
    assert(ids_b[j] == id_of(walk_changeset(b, ids_b, j, hggit_compatibility, files)));
}

/// Whether trees are to be checked in the end has no part in what is saved, nor in which
/// changeset stands for which commit.
pub proof fn law_checking_trees_does_not_change_what_is_saved<C, F>(
    keeps_hggit_ids: bool,
    records: Seq<(GitCommit, F, C)>,
)
    ensures
        ({
            let checked = ImportModel::initial(true, keeps_hggit_ids).after_all(records);
            let unchecked = ImportModel::initial(false, keeps_hggit_ids).after_all(records);
            &&& checked.checks_trees
            &&& !unchecked.checks_trees
            &&& checked == (ImportModel { checks_trees: true, ..unchecked })
        }),
    decreases records.len(),
{
    if records.len() > 0 {
        law_checking_trees_does_not_change_what_is_saved(keeps_hggit_ids, records.drop_last());
    }
}

/// After a walk over commits that differ, each commit stands for the changeset that it
/// became.
pub proof fn law_commits_keep_their_changesets<C>(commits: Seq<GitCommit>, ids: Seq<C>)
    requires
        commits.len() == ids.len(),
        commits_distinct(commits),
        import_walk(commits, ids) is Ok,
    ensures
        forall|i: int|
            0 <= i < commits.len() ==> {
                &&& import_walk(commits, ids)->Ok_0.contains_key((#[trigger] commits[i]).id@)
                &&& import_walk(commits, ids)->Ok_0[commits[i].id@] == ids[i]
            },
    decreases commits.len(),
{
    if commits.len() > 0 {
        let front = commits.drop_last();
        assert(commits_distinct(front));
        law_commits_keep_their_changesets(front, ids.drop_last());
        assert forall|i: int| 0 <= i < commits.len() implies {
            &&& import_walk(commits, ids)->Ok_0.contains_key((#[trigger] commits[i]).id@)
            &&& import_walk(commits, ids)->Ok_0[commits[i].id@] == ids[i]
        } by {
            if i < front.len() {
                assert(front[i] == commits[i]);
                assert(commits[i].id@ != commits[commits.len() - 1].id@);
            }
        }
    }
}

/// What a commit with an author becomes, field by field, whatever its parents: it keeps its
/// author, its time and its message, and has an empty message if it had none. It has no
/// committer. For hg-git alone it keeps the id of the commit.
pub proof fn law_a_changeset_keeps_what_the_commit_says<C, K>(
    commit: GitCommit,
    parents: Seq<C>,
    file_changes: Map<Seq<Seq<u8>>, Option<FileChange<K>>>,
    hggit_compatibility: bool,
)
    requires
        i32::MIN <= commit.offset_minutes * 60 <= i32::MAX,
    ensures
        ({
            let changeset = changeset_of(commit@, parents, file_changes, hggit_compatibility);
            &&& commit.message matches Some(message) ==> changeset.message == message@
            &&& commit.message is None ==> changeset.message.len() == 0
            &&& commit.author matches Some(author) ==> changeset.author == author@
            &&& changeset.author_date.seconds == commit.seconds
            &&& changeset.author_date.offset_seconds == commit.offset_minutes * 60
            &&& changeset.committer is None
            &&& changeset.committer_date is None
            &&& changeset.parents.len() == parents.len()
            &&& forall|i: int|
                0 <= i < parents.len() ==> #[trigger] changeset.parents[i] == parents[i]
            &&& forall|path: Seq<Seq<u8>>| #[trigger]
                changeset.file_changes.contains_key(path) <==> file_changes.contains_key(path)
            &&& forall|path: Seq<Seq<u8>>| #[trigger]
                changeset.file_changes.contains_key(path) ==> changeset.file_changes[path]
                    == file_changes[path]
            &&& hggit_compatibility ==> changeset.extra.len() == 1 && changeset.extra[0].0
                == "convert_revision"@ && changeset.extra[0].1 == encode_utf8(
                hex_text(commit.id.raw@),
            )
            &&& !hggit_compatibility ==> changeset.extra.len() == 0
        }),
{
}

/// Whatever else two commits say, each of their changesets keeps its own part: changesets of
/// commits that differ in message, author or time differ, under the same parents and with the
/// same files.
pub proof fn law_commits_that_differ_become_changesets_that_differ<C, K>(
    a: GitCommit,
    b: GitCommit,
    parents: Seq<C>,
    file_changes: Map<Seq<Seq<u8>>, Option<FileChange<K>>>,
    hggit_compatibility: bool,
)
    requires
        a.author is Some,
        b.author is Some,
        a.message is Some,
        b.message is Some,
        i32::MIN <= a.offset_minutes * 60 <= i32::MAX,
        i32::MIN <= b.offset_minutes * 60 <= i32::MAX,
        changeset_of(a@, parents, file_changes, hggit_compatibility) == changeset_of(
            b@,
            parents,
            file_changes,
            hggit_compatibility,
        ),
    ensures
        a.author->0@ == b.author->0@,
        a.message->0@ == b.message->0@,
        a.seconds == b.seconds,
        a.offset_minutes == b.offset_minutes,
{
}

/// A commit without an author is refused as such, whatever its parents, and no commit with an
/// author is.
pub proof fn law_a_commit_needs_an_author<C>(imported: Map<Seq<u8>, C>, commit: GitCommit)
    ensures
        commit.author is None <==> commit_parents(imported, commit) == Err::<Seq<C>, ImportError>(
            ImportError::NoAuthor(commit.id),
        ),
{
    if commit.author is Some {
        lemma_parents_name_parents(imported, commit.parents@);
    }
}

proof fn lemma_parents_name_parents<C>(imported: Map<Seq<u8>, C>, parents: Seq<ParentCommit>)
    ensures
        parent_changesets(imported, parents) matches Err(e) ==> e is NotImported,
    decreases parents.len(),
{
    if parents.len() > 0 {
        lemma_parents_name_parents(imported, parents.drop_last());
    }
}

/// The lists of trees that are held against each other name the trees of the parents, one for
/// one.
pub proof fn law_trees_are_named_by_their_ids(parents: Seq<ParentCommit>, trees: Seq<GitTree>)
    ensures
        parent_trees(parents).len() == parents.len(),
        forall|i: int|
            0 <= i < parents.len() ==> #[trigger] parent_trees(parents)[i] == parents[i].tree.raw@,
        tree_ids(trees).len() == trees.len(),
        forall|i: int| 0 <= i < trees.len() ==> #[trigger] tree_ids(trees)[i] == trees[i].0.raw@,
{
}

/// Recording a commit adds it, its changeset and the id of that at the end, makes the id the
/// one that the commit stands for, and leaves every other commit with its own.
pub proof fn law_recording_adds_one_commit<C, F>(
    import: ImportModel<C, F>,
    commit: GitCommit,
    changeset: F,
    id: C,
    other: Seq<u8>,
)
    ensures
        ({
            let after = import.after(commit, changeset, id);
            &&& after.frozen.len() == import.frozen.len() + 1
            &&& after.frozen.last() == changeset
            &&& after.frozen.drop_last() == import.frozen
            &&& after.commits.drop_last() == import.commits
            &&& after.commits.len() == import.commits.len() + 1
            &&& after.commits.last() == commit
            &&& after.changeset_ids.len() == import.changeset_ids.len() + 1
            &&& after.changeset_ids.drop_last() == import.changeset_ids
            &&& after.changeset_ids.last() == id
            &&& after.imported.contains_key(commit.id.raw@)
            &&& after.imported[commit.id.raw@] == id
            &&& other != commit.id.raw@ ==> (after.imported.contains_key(other)
                <==> import.imported.contains_key(other))
            &&& other != commit.id.raw@ && import.imported.contains_key(other)
                ==> after.imported[other] == import.imported[other]
            &&& after.checks_trees == import.checks_trees
            &&& after.keeps_hggit_ids == import.keeps_hggit_ids
        }),
{
    let after = import.after(commit, changeset, id);
    assert(after.frozen.drop_last() =~= import.frozen);
    assert(after.commits.drop_last() =~= import.commits);
    assert(after.changeset_ids.drop_last() =~= import.changeset_ids);
}

} // verus!
