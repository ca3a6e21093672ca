//! Paths inside a repository.

use vstd::prelude::*;

use crate::assoc::MapKey;

verus! {

/// One element of a path: the name of a file or of a directory.
#[derive(Debug)]
pub struct MPathElement {
    pub bytes: Vec<u8>,
}

impl View for MPathElement {
    type V = Seq<u8>;

    open spec fn view(&self) -> Seq<u8> {
        self.bytes@
    }
}

impl Clone for MPathElement {
    fn clone(&self) -> (res: Self)
        ensures
            res@ == self@,
    {
        let bytes: Vec<u8> = self.bytes.clone();
        assert(bytes@ =~= self.bytes@);
        MPathElement { bytes }
    }
}

impl MapKey for MPathElement {
    fn same(&self, other: &Self) -> (res: bool) {
        let res: bool = self.bytes == other.bytes;
        assert(res ==> self.bytes@ =~= other.bytes@);
        res
    }
}

/// A path from the root of a repository.
#[derive(Debug)]
pub struct MPath {
    pub elements: Vec<MPathElement>,
}

impl View for MPath {
    type V = Seq<Seq<u8>>;

    open spec fn view(&self) -> Seq<Seq<u8>> {
        self.elements@.map_values(|e: MPathElement| e@)
    }
}

impl MapKey for MPath {
    fn same(&self, other: &Self) -> (res: bool) {
        if self.elements.len() != other.elements.len() {
            assert(self@.len() != other@.len());
            return false;
        }
        let mut i: usize = 0;
        while i < self.elements.len()
            invariant
                i <= self.elements@.len(),
                self.elements@.len() == other.elements@.len(),
                forall|j: int| 0 <= j < i ==> #[trigger] self@[j] == other@[j],
            decreases self.elements@.len() - i,
        {
            if !self.elements[i].same(&other.elements[i]) {
                assert(self@[i as int] != other@[i as int]);
                return false;
            }
            i = i + 1;
        }
        assert(self@ =~= other@);
        true
    }
}

/// Names are told apart by their bytes and by nothing else.
pub proof fn law_names_are_their_bytes(a: MPathElement, b: MPathElement)
    ensures
        a@ == a.bytes@,
        a@ == b@ <==> a.bytes@ == b.bytes@,
{
}

/// Paths are told apart by the bytes of their names, one after the other.
pub proof fn law_paths_are_their_names(a: MPath, b: MPath)
    ensures
        a@.len() == a.elements@.len(),
        forall|i: int| 0 <= i < a@.len() ==> #[trigger] a@[i] == a.elements@[i].bytes@,
        a@ == b@ <==> a.elements@.len() == b.elements@.len() && forall|i: int|
            0 <= i < a.elements@.len() ==> (#[trigger] a.elements@[i]).bytes@
                == b.elements@[i].bytes@,
{
    if a.elements@.len() == b.elements@.len() && forall|i: int|
        0 <= i < a.elements@.len() ==> (#[trigger] a.elements@[i]).bytes@
            == b.elements@[i].bytes@ {
        assert forall|i: int| 0 <= i < a@.len() implies a@[i] == b@[i] by {
            assert(a.elements@[i].bytes@ == b.elements@[i].bytes@);
        }
        assert(a@ =~= b@);
    }
    if a@ == b@ {
        assert(a@.len() == b@.len());
        assert forall|i: int| 0 <= i < a.elements@.len() implies (
        #[trigger] a.elements@[i]).bytes@ == b.elements@[i].bytes@ by {
            assert(a@[i] == b@[i]);
        }
    }
}

} // verus!
