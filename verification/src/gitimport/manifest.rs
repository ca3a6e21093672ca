//! Git trees as manifests: what a directory of a commit holds.

use vstd::prelude::*;

use crate::assoc::{entries_map, keys_distinct, AssocMap};
use crate::number::{format_i32, int_text};
use super::oid::Oid;
use super::path::MPathElement;

verus! {

/// The file mode of a plain file in a Git tree.
pub const GIT_FILEMODE_BLOB: i32 = 0o100644;

/// The file mode of an executable file in a Git tree.
pub const GIT_FILEMODE_BLOB_EXECUTABLE: i32 = 0o100755;

/// The file mode of a symbolic link in a Git tree.
pub const GIT_FILEMODE_LINK: i32 = 0o120000;

/// The kinds of Git objects.
#[derive(Clone, Copy, Debug, PartialEq, Eq, Structural)]
pub enum ObjectKind {
    Any,
    Commit,
    Tree,
    Blob,
    Tag,
}

/// The kinds of files that a changeset can hold.
#[derive(Clone, Copy, Debug, PartialEq, Eq, Structural)]
pub enum FileType {
    Regular,
    Executable,
    Symlink,
}

/// A directory, by the id of its Git tree.
#[derive(Clone, Copy, Debug)]
pub struct GitTree(pub Oid);

/// A file, by the id of its Git blob.
#[derive(Clone, Copy, Debug)]
pub struct GitLeaf(pub Oid);

/// What stands under one name of a manifest.
#[derive(Clone, Copy, Debug)]
pub enum Entry {
    Leaf(FileType, GitLeaf),
    Tree(GitTree),
}

/// One entry of a Git tree as it was read from the repository.
#[derive(Debug)]
pub struct TreeEntry {
    /// The object that the entry points to.
    pub oid: Oid,
    /// The UNIX file attributes.
    pub filemode: i32,
    /// The name as a path element, or why it cannot be one.
    pub name: Result<MPathElement, String>,
    /// The kind of the object, if it is known.
    pub kind: Option<ObjectKind>,
}

/// Why a Git tree cannot be a manifest.
#[derive(Debug)]
pub enum LoadTreeError {
    /// A name cannot be a path element.
    InvalidName(String),
    /// A blob has file attributes that no file can have.
    InvalidFilemode(i32),
    /// An entry is neither a blob nor a tree.
    InvalidKind(Option<ObjectKind>),
}

impl ObjectKind {
    /// The name of the kind.
    pub fn name(&self) -> (text: &'static str)
        ensures
            text@ == self.text(),
            *self == ObjectKind::Any ==> text@ == "Any"@,
            *self == ObjectKind::Commit ==> text@ == "Commit"@,
            *self == ObjectKind::Tree ==> text@ == "Tree"@,
            *self == ObjectKind::Blob ==> text@ == "Blob"@,
            *self == ObjectKind::Tag ==> text@ == "Tag"@,
    {
        match self {
            ObjectKind::Any => "Any",
            ObjectKind::Commit => "Commit",
            ObjectKind::Tree => "Tree",
            ObjectKind::Blob => "Blob",
            ObjectKind::Tag => "Tag",
        }
    }

    /// The characters of [`ObjectKind::name`].
    pub open spec fn text(&self) -> Seq<char> {
        match self {
            ObjectKind::Any => "Any"@,
            ObjectKind::Commit => "Commit"@,
            ObjectKind::Tree => "Tree"@,
            ObjectKind::Blob => "Blob"@,
            ObjectKind::Tag => "Tag"@,
        }
    }
}

impl LoadTreeError {
    /// The message for a user.
    pub fn message(&self) -> (text: String)
        ensures
            text@ == self.text(),
            self matches LoadTreeError::InvalidName(message) ==> text@ == message@,
            self matches LoadTreeError::InvalidFilemode(mode) ==> text@ == "Invalid filemode: "@
                + int_text(mode as int),
            self matches LoadTreeError::InvalidKind(Some(kind)) ==> text@ == "Invalid kind: Some("@
                + kind.text() + ")"@,
            self matches LoadTreeError::InvalidKind(None) ==> text@ == "Invalid kind: None"@,
    {
        match self {
            LoadTreeError::InvalidName(message) => message.clone(),
            LoadTreeError::InvalidFilemode(mode) => "Invalid filemode: ".to_string().concat(
                format_i32(*mode).as_str(),
            ),
            LoadTreeError::InvalidKind(Some(kind)) => "Invalid kind: Some(".to_string().concat(
                kind.name(),
            ).concat(")"),
            LoadTreeError::InvalidKind(None) => "Invalid kind: None".to_string(),
        }
    }

    /// The characters of [`LoadTreeError::message`].
    pub open spec fn text(&self) -> Seq<char> {
        match self {
            LoadTreeError::InvalidName(message) => message@,
            LoadTreeError::InvalidFilemode(mode) => "Invalid filemode: "@ + int_text(*mode as int),
            LoadTreeError::InvalidKind(Some(kind)) => "Invalid kind: Some("@ + kind.text() + ")"@,
            LoadTreeError::InvalidKind(None) => "Invalid kind: None"@,
        }
    }
}

/// The type of a file with the attributes `filemode`.
pub open spec fn file_type(filemode: i32) -> Option<FileType> {
    if filemode == GIT_FILEMODE_BLOB {
        Some(FileType::Regular)
    } else if filemode == GIT_FILEMODE_BLOB_EXECUTABLE {
        Some(FileType::Executable)
    } else if filemode == GIT_FILEMODE_LINK {
        Some(FileType::Symlink)
    } else {
        None
    }
}

/// What one entry of a Git tree puts into a manifest. The name is looked at first, then
/// the kind, then, for a blob, the file attributes.
pub open spec fn read_entry(entry: TreeEntry) -> Result<Entry, LoadTreeError> {
    if entry.name is Err {
        Err(LoadTreeError::InvalidName(entry.name->Err_0))
    } else if entry.kind == Some(ObjectKind::Blob) {
        match file_type(entry.filemode) {
            Some(ft) => Ok(Entry::Leaf(ft, GitLeaf(entry.oid))),
            None => Err(LoadTreeError::InvalidFilemode(entry.filemode)),
        }
    } else if entry.kind == Some(ObjectKind::Tree) {
        Ok(Entry::Tree(GitTree(entry.oid)))
    } else {
        Err(LoadTreeError::InvalidKind(entry.kind))
    }
}

/// The manifest of a Git tree: what its entries put there, one after the other, up to the
/// first that cannot be read.
pub open spec fn read_tree(entries: Seq<TreeEntry>) -> Result<
    Map<Seq<u8>, Entry>,
    LoadTreeError,
>
    decreases entries.len(),
{
    if entries.len() == 0 {
        Ok(Map::empty())
    } else {
        match read_tree(entries.drop_last()) {
            Err(e) => Err(e),
            Ok(map) => match read_entry(entries.last()) {
                Err(e) => Err(e),
                Ok(value) => Ok(map.insert(entries.last().name->Ok_0@, value)),
            },
        }
    }
}

/// A directory: a map from names to entries.
pub struct GitManifest {
    map: AssocMap<MPathElement, Entry>,
}

impl View for GitManifest {
    type V = Map<Seq<u8>, Entry>;

    closed spec fn view(&self) -> Map<Seq<u8>, Entry> {
        self.map@
    }
}

impl GitManifest {
    /// What stands under `name`.
    pub fn lookup(&self, name: &MPathElement) -> (res: Option<Entry>)
        ensures
            match res {
                Some(entry) => self@.contains_key(name@) && entry == self@[name@],
                None => !self@.contains_key(name@),
            },
    {
        match self.map.get(name) {
            Some(entry) => Some(*entry),
            None => None,
        }
    }

    /// All names with what stands under them, each name once.
    pub fn list(&self) -> (res: Vec<(MPathElement, Entry)>)
        ensures
            keys_distinct(res@),
            entries_map(res@) == self@,
    {
        let entries: &Vec<(MPathElement, Entry)> = self.map.entries();
        let mut res: Vec<(MPathElement, Entry)> = Vec::new();
        let mut i: usize = 0;
        while i < entries.len()
            invariant
                i <= entries@.len(),
                res@.len() == i,
                forall|j: int|
                    0 <= j < i ==> (#[trigger] res@[j]).0@ == entries@[j].0@ && res@[j].1
                        == entries@[j].1,
            decreases entries@.len() - i,
        {
            res.push((entries[i].0.clone(), entries[i].1));
            i = i + 1;
        }
        proof {
            lemma_same_entries_same_map(res@, entries@);
            assert forall|i: int, j: int| 0 <= i < j < res@.len() implies (
            #[trigger] res@[i]).0@ != (#[trigger] res@[j]).0@ by {
                assert(entries@[i].0@ != entries@[j].0@);
            }
        }
        res
    }
}

proof fn lemma_same_entries_same_map(a: Seq<(MPathElement, Entry)>, b: Seq<(MPathElement, Entry)>)
    requires
        a.len() == b.len(),
        forall|j: int|
            0 <= j < a.len() ==> (#[trigger] a[j]).0@ == b[j].0@ && a[j].1 == b[j].1,
    ensures
        entries_map(a) == entries_map(b),
    decreases a.len(),
{
    if a.len() > 0 {
        lemma_same_entries_same_map(a.drop_last(), b.drop_last());
        assert(a[a.len() - 1].0@ == b[a.len() - 1].0@);
    }
}

/// Reads one entry of a Git tree.
pub fn load_entry(entry: TreeEntry) -> (res: Result<(MPathElement, Entry), LoadTreeError>)
    ensures
        match res {
            Ok((name, value)) => read_entry(entry) == Ok::<Entry, LoadTreeError>(value)
                && entry.name == Ok::<MPathElement, String>(name),
            Err(e) => read_entry(entry) == Err::<Entry, LoadTreeError>(e),
        },
        entry.name is Err ==> res == Err::<(MPathElement, Entry), LoadTreeError>(
            LoadTreeError::InvalidName(entry.name->Err_0),
        ),
        entry.name is Ok && entry.kind == Some(ObjectKind::Tree) ==> res is Ok && res->Ok_0.1
            == Entry::Tree(GitTree(entry.oid)),
        entry.name is Ok && entry.kind == Some(ObjectKind::Blob) && entry.filemode == 0o100644
            ==> res is Ok && res->Ok_0.1 == Entry::Leaf(
            FileType::Regular,
            GitLeaf(entry.oid),
        ),
        entry.name is Ok && entry.kind == Some(ObjectKind::Blob) && entry.filemode == 0o100755
            ==> res is Ok && res->Ok_0.1 == Entry::Leaf(
            FileType::Executable,
            GitLeaf(entry.oid),
        ),
        entry.name is Ok && entry.kind == Some(ObjectKind::Blob) && entry.filemode == 0o120000
            ==> res is Ok && res->Ok_0.1 == Entry::Leaf(
            FileType::Symlink,
            GitLeaf(entry.oid),
        ),
{
    let name: MPathElement = match entry.name {
        Ok(name) => name,
        Err(message) => {
            return Err(LoadTreeError::InvalidName(message));
        },
    };
    match entry.kind {
        Some(ObjectKind::Blob) => {
            let mode: i32 = entry.filemode;
            if mode == GIT_FILEMODE_BLOB {
                Ok((name, Entry::Leaf(FileType::Regular, GitLeaf(entry.oid))))
            } else if mode == GIT_FILEMODE_BLOB_EXECUTABLE {
                Ok((name, Entry::Leaf(FileType::Executable, GitLeaf(entry.oid))))
            } else if mode == GIT_FILEMODE_LINK {
                Ok((name, Entry::Leaf(FileType::Symlink, GitLeaf(entry.oid))))
            } else {
                Err(LoadTreeError::InvalidFilemode(mode))
            }
        },
        Some(ObjectKind::Tree) => Ok((name, Entry::Tree(GitTree(entry.oid)))),
        kind => Err(LoadTreeError::InvalidKind(kind)),
    }
}

/// The manifest of a Git tree with the entries `entries`.
pub fn load_git_tree(entries: Vec<TreeEntry>) -> (res: Result<GitManifest, LoadTreeError>)
    ensures
        match res {
            Ok(manifest) => read_tree(entries@) == Ok::<Map<Seq<u8>, Entry>, LoadTreeError>(
                manifest@,
            ),
            Err(e) => read_tree(entries@) == Err::<Map<Seq<u8>, Entry>, LoadTreeError>(e),
        },
{
    let ghost all = entries@;
    let mut map: AssocMap<MPathElement, Entry> = AssocMap::new();
    assert(all.take(0) =~= Seq::<TreeEntry>::empty());
    for entry in it: entries
        invariant
            it.seq() == all,
            read_tree(all.take(it.index() as int)) == Ok::<Map<Seq<u8>, Entry>, LoadTreeError>(
                map@,
            ),
    {
        let ghost next = all.take(it.index() + 1);
        proof {
            assert(next.drop_last() =~= all.take(it.index() as int));
            assert(next.last() == entry);
        }
        match load_entry(entry) {
            Ok((name, value)) => {
                map.insert(name, value);
            },
            Err(e) => {
                proof {
                    lemma_tree_error_stays(all, it.index() + 1);
                }
                return Err(e);
            },
        }
    }
    assert(all.take(all.len() as int) =~= all);
    Ok(GitManifest { map })
}

proof fn lemma_tree_error_stays(entries: Seq<TreeEntry>, k: int)
    requires
        0 <= k <= entries.len(),
        read_tree(entries.take(k)) is Err,
    ensures
        read_tree(entries) == read_tree(entries.take(k)),
    decreases entries.len(),
{
    if k == entries.len() {
        assert(entries.take(k) =~= entries);
    } else {
        assert(entries.drop_last().take(k) =~= entries.take(k));
        lemma_tree_error_stays(entries.drop_last(), k);
    }
}

proof fn lemma_readable_tree(entries: Seq<TreeEntry>)
    requires
        forall|i: int| 0 <= i < entries.len() ==> read_entry(#[trigger] entries[i]) is Ok,
    ensures
        read_tree(entries) is Ok,
        forall|name: Seq<u8>| #[trigger]
            read_tree(entries)->Ok_0.contains_key(name) <==> exists|i: int|
                0 <= i < entries.len() && (#[trigger] entries[i]).name->Ok_0@ == name,
    decreases entries.len(),
{
    if entries.len() > 0 {
        let front = entries.drop_last();
        assert forall|i: int| 0 <= i < front.len() implies read_entry(#[trigger] front[i]) is Ok by {
            assert(read_entry(entries[i]) is Ok);
        }
        lemma_readable_tree(front);
        assert(read_entry(entries[entries.len() - 1]) is Ok);
        let map = read_tree(entries)->Ok_0;
        let before = read_tree(front)->Ok_0;
        assert forall|name: Seq<u8>| #[trigger] map.contains_key(name) <==> exists|i: int|
            0 <= i < entries.len() && (#[trigger] entries[i]).name->Ok_0@ == name by {
            if before.contains_key(name) {
                let i = choose|i: int|
                    0 <= i < front.len() && (#[trigger] front[i]).name->Ok_0@ == name;
                assert(entries[i].name->Ok_0@ == name);
            }
            if exists|i: int|
                0 <= i < entries.len() && (#[trigger] entries[i]).name->Ok_0@ == name {
                let i = choose|i: int|
                    0 <= i < entries.len() && (#[trigger] entries[i]).name->Ok_0@ == name;
                if i < front.len() {
                    assert(front[i].name->Ok_0@ == name);
                }
            }
            if name == entries.last().name->Ok_0@ {
                assert(entries[entries.len() - 1].name->Ok_0@ == name);
            }
        }
    }
}

/// The first entry that cannot be read decides the error of the whole tree.
pub proof fn law_first_bad_entry_decides(entries: Seq<TreeEntry>, i: int)
    requires
        0 <= i < entries.len(),
        forall|j: int| 0 <= j < i ==> read_entry(#[trigger] entries[j]) is Ok,
        read_entry(entries[i]) is Err,
    ensures
        read_tree(entries) is Err,
        read_tree(entries)->Err_0 == read_entry(entries[i])->Err_0,
{
    let good = entries.take(i);
    assert forall|j: int| 0 <= j < good.len() implies read_entry(#[trigger] good[j]) is Ok by {
        assert(read_entry(entries[j]) is Ok);
    }
    lemma_readable_tree(good);
    let upto = entries.take(i + 1);
    assert(upto.drop_last() =~= good);
    assert(upto.last() == entries[i]);
    lemma_tree_error_stays(entries, i + 1);
}

/// A tree whose entries can all be read, under names that differ, becomes a manifest that
/// holds each entry under its name and nothing else.
pub proof fn law_manifest_holds_the_entries(entries: Seq<TreeEntry>)
    requires
        forall|i: int| 0 <= i < entries.len() ==> read_entry(#[trigger] entries[i]) is Ok,
        forall|i: int, j: int|
            0 <= i < j < entries.len() ==> (#[trigger] entries[i]).name->Ok_0@ != (
            #[trigger] entries[j]).name->Ok_0@,
    ensures
        read_tree(entries) is Ok,
        forall|i: int|
            0 <= i < entries.len() ==> {
                let name = (#[trigger] entries[i]).name->Ok_0@;
                &&& read_tree(entries)->Ok_0.contains_key(name)
                &&& read_tree(entries)->Ok_0[name] == read_entry(entries[i])->Ok_0
            },
        forall|name: Seq<u8>| #[trigger]
            read_tree(entries)->Ok_0.contains_key(name) ==> exists|i: int|
                0 <= i < entries.len() && (#[trigger] entries[i]).name->Ok_0@ == name,
    decreases entries.len(),
{
    lemma_readable_tree(entries);
    if entries.len() > 0 {
        let front = entries.drop_last();
        assert forall|i: int| 0 <= i < front.len() implies read_entry(#[trigger] front[i]) is Ok by {
            assert(read_entry(entries[i]) is Ok);
        }
        law_manifest_holds_the_entries(front);
        assert forall|i: int| 0 <= i < entries.len() implies {
            let name = (#[trigger] entries[i]).name->Ok_0@;
            &&& read_tree(entries)->Ok_0.contains_key(name)
            &&& read_tree(entries)->Ok_0[name] == read_entry(entries[i])->Ok_0
        } by {
            if i < front.len() {
                assert(front[i] == entries[i]);
                assert(entries[i].name->Ok_0@ != entries[entries.len() - 1].name->Ok_0@);
            }
        }
    }
}

/// What an entry with a valid name becomes, whatever its name and its id. A blob is a file, of
/// the type that its attributes say, and is refused if they say none; a tree is a directory,
/// whatever its attributes; everything else is refused.
pub proof fn law_kind_and_mode_decide(
    oid: Oid,
    filemode: i32,
    name: MPathElement,
    kind: Option<ObjectKind>,
)
    ensures
        ({
            let read = read_entry(TreeEntry { oid, filemode, name: Ok(name), kind });
            match kind {
                Some(ObjectKind::Blob) => {
                    &&& filemode == 0o100644 ==> read == Ok::<Entry, LoadTreeError>(
                        Entry::Leaf(FileType::Regular, GitLeaf(oid)),
                    )
                    &&& filemode == 0o100755 ==> read == Ok::<Entry, LoadTreeError>(
                        Entry::Leaf(FileType::Executable, GitLeaf(oid)),
                    )
                    &&& filemode == 0o120000 ==> read == Ok::<Entry, LoadTreeError>(
                        Entry::Leaf(FileType::Symlink, GitLeaf(oid)),
                    )
                    &&& filemode != 0o100644 && filemode != 0o100755 && filemode != 0o120000
                        ==> read == Err::<Entry, LoadTreeError>(
                        LoadTreeError::InvalidFilemode(filemode),
                    )
                },
                Some(ObjectKind::Tree) => read == Ok::<Entry, LoadTreeError>(
                    Entry::Tree(GitTree(oid)),
                ),
                _ => read == Err::<Entry, LoadTreeError>(LoadTreeError::InvalidKind(kind)),
            }
        }),
{
}

/// A name that cannot be a path element is refused before anything else is looked at, for the
/// reason that was given.
pub proof fn law_a_bad_name_is_refused_first(
    oid: Oid,
    filemode: i32,
    reason: String,
    kind: Option<ObjectKind>,
)
    ensures
        read_entry(TreeEntry { oid, filemode, name: Err(reason), kind }) == Err::<
            Entry,
            LoadTreeError,
        >(LoadTreeError::InvalidName(reason)),
{
}

/// What an entry becomes does not depend on its name, and two entries that differ in their ids
/// alone are either both refused or become entries of one kind, each with its own id.
pub proof fn law_entries_differ_only_in_name_and_id(a: TreeEntry, b: TreeEntry)
    requires
        a.name is Ok,
        b.name is Ok,
        a.kind == b.kind,
        a.filemode == b.filemode,
    ensures
        a.oid == b.oid ==> read_entry(a) == read_entry(b),
        read_entry(a) is Ok <==> read_entry(b) is Ok,
        read_entry(a) is Err ==> read_entry(a) == read_entry(b),
        read_entry(a) matches Ok(Entry::Leaf(ty, leaf)) ==> leaf.0 == a.oid && read_entry(b)
            == Ok::<Entry, LoadTreeError>(Entry::Leaf(ty, GitLeaf(b.oid))),
        read_entry(a) matches Ok(Entry::Tree(tree)) ==> tree.0 == a.oid && read_entry(b) == Ok::<
            Entry,
            LoadTreeError,
        >(Entry::Tree(GitTree(b.oid))),
{
}

/// A tree becomes a manifest exactly if each of its entries can be read. Under each name stands
/// the last entry with that name, and there are no other names.
pub proof fn law_last_entry_of_a_name_counts(entries: Seq<TreeEntry>, i: int)
    requires
        0 <= i < entries.len(),
    ensures
        read_tree(entries) is Ok <==> forall|j: int|
            0 <= j < entries.len() ==> read_entry(#[trigger] entries[j]) is Ok,
        read_tree(entries) is Ok && (forall|j: int|
            i < j < entries.len() ==> (#[trigger] entries[j]).name->Ok_0.bytes@
                != entries[i].name->Ok_0.bytes@) ==> {
            let name = entries[i].name->Ok_0.bytes@;
            &&& read_tree(entries)->Ok_0.contains_key(name)
            &&& read_entry(entries[i]) == Ok::<Entry, LoadTreeError>(
                read_tree(entries)->Ok_0[name],
            )
        },
        read_tree(entries) is Ok ==> forall|name: Seq<u8>| #[trigger]
            read_tree(entries)->Ok_0.contains_key(name) ==> exists|j: int|
                0 <= j < entries.len() && (#[trigger] entries[j]).name->Ok_0.bytes@ == name,
    decreases entries.len(),
{
    if forall|j: int| 0 <= j < entries.len() ==> read_entry(#[trigger] entries[j]) is Ok {
        lemma_readable_tree(entries);
        assert forall|name: Seq<u8>| #[trigger]
            read_tree(entries)->Ok_0.contains_key(name) implies exists|j: int|
            0 <= j < entries.len() && (#[trigger] entries[j]).name->Ok_0.bytes@ == name by {
            let j = choose|j: int|
                0 <= j < entries.len() && (#[trigger] entries[j]).name->Ok_0@ == name;
            assert(entries[j].name->Ok_0.bytes@ == name);
        }
        if forall|j: int|
            i < j < entries.len() ==> (#[trigger] entries[j]).name->Ok_0.bytes@
                != entries[i].name->Ok_0.bytes@ {
            assert(read_entry(entries[i]) is Ok);
            if i < entries.len() - 1 {
                let front = entries.drop_last();
                assert forall|j: int| 0 <= j < front.len() implies read_entry(
                    #[trigger] front[j],
                ) is Ok by {
                    assert(read_entry(entries[j]) is Ok);
                }
                assert forall|j: int| i < j < front.len() implies (
                #[trigger] front[j]).name->Ok_0.bytes@ != front[i].name->Ok_0.bytes@ by {
                    assert(entries[j].name->Ok_0.bytes@ != entries[i].name->Ok_0.bytes@);
                }
                law_last_entry_of_a_name_counts(front, i);
                assert(entries[entries.len() - 1].name->Ok_0.bytes@
                    != entries[i].name->Ok_0.bytes@);
                assert(front[i] == entries[i]);
            }
        }
    } else {
        let k = choose|k: int|
            0 <= k < entries.len() && !(read_entry(#[trigger] entries[k]) is Ok);
        lemma_bad_entry(entries, k);
    }
}

proof fn lemma_bad_entry(entries: Seq<TreeEntry>, k: int)
    requires
        0 <= k < entries.len(),
        read_entry(entries[k]) is Err,
    ensures
        read_tree(entries) is Err,
    decreases entries.len(),
{
    if k < entries.len() - 1 {
        lemma_bad_entry(entries.drop_last(), k);
    }
}

} // verus!
