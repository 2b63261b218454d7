//! The mods directory as the engine sees it: the set of file names that are
//! present in one flat directory.

use vstd::prelude::*;

verus! {

/// The names of the files in the mods directory.
///
/// The engine never touches the file system. It works on this record of the
/// directory, and whoever drives it repeats on disk what the engine did here.
#[derive(Debug)]
pub struct ModsDir {
    files: Vec<String>,
}

impl View for ModsDir {
    type V = Set<Seq<char>>;

    closed spec fn view(&self) -> Set<Seq<char>> {
        self.files.deep_view().to_set()
    }
}

/// A sequence filtered by `keep` holds exactly the members of the sequence
/// that satisfy `keep`.
proof fn lemma_filter_members<A>(s: Seq<A>, keep: spec_fn(A) -> bool)
    ensures
        forall|x: A| #[trigger] s.filter(keep).contains(x) <==> s.contains(x) && keep(x),
{
    broadcast use vstd::seq_lib::group_filter_ensures;

    assert forall|x: A| #[trigger] s.filter(keep).contains(x) implies s.contains(x) && keep(x) by {
        s.lemma_filter_contains_rev(keep, x);
    }
    assert forall|x: A| s.contains(x) && keep(x) implies #[trigger] s.filter(keep).contains(x) by {
        let i = choose|i: int| 0 <= i < s.len() && s[i] == x;
        s.lemma_filter_contains(keep, i);
    }
}

impl ModsDir {
    /// An empty directory.
    pub fn new() -> (dir: Self)
        ensures
            dir@ == Set::<Seq<char>>::empty(),
    {
        let dir = ModsDir { files: Vec::new() };
        assert(dir.files.deep_view() =~= Seq::<Seq<char>>::empty());
        assert(dir@ =~= Set::<Seq<char>>::empty());
        dir
    }

    /// The directory that holds the files named in `names`.
    pub fn from_names(names: Vec<String>) -> (dir: Self)
        ensures
            dir@ == names.deep_view().to_set(),
    {
        ModsDir { files: names }
    }

    /// A directory never holds more than finitely many files.
    pub proof fn lemma_finite(&self)
        ensures
            self@.finite(),
    {
        vstd::seq_lib::seq_to_set_is_finite(self.files.deep_view());
    }

    /// Whether a file of this name is present.
    pub fn contains(&self, filename: &String) -> (present: bool)
        ensures
            present == self@.contains(filename@),
    {
        let mut i: usize = 0;
        while i < self.files.len()
            invariant
                i <= self.files.len(),
                forall|j: int| 0 <= j < i ==> self.files[j]@ != filename@,
            decreases self.files.len() - i,
        {
            if self.files[i] == *filename {
                assert(self.files.deep_view()[i as int] == filename@);
                return true;
            }
            i += 1;
        }
        false
    }

    /// Records that a file of this name was written.
    pub fn create(&mut self, filename: &String)
        ensures
            final(self)@ == old(self)@.insert(filename@),
    {
        self.files.push(filename.clone());
        proof {
            assert(self.files.deep_view() =~= old(self).files.deep_view().push(filename@));
            old(self).files.deep_view().lemma_push_to_set_commute(filename@);
        }
    }

    /// Removes the file of this name and says whether there was one.
    pub fn remove_file(&mut self, filename: &String) -> (removed: bool)
        ensures
            removed == old(self)@.contains(filename@),
            final(self)@ == old(self)@.remove(filename@),
    {
        let ghost before = self.files.deep_view();
        let ghost other = |name: Seq<char>| name != filename@;
        let mut kept: Vec<String> = Vec::new();
        let mut removed = false;
        let mut i: usize = 0;
        while i < self.files.len()
            invariant
                i <= self.files.len(),
                before == self.files.deep_view(),
                other == |name: Seq<char>| name != filename@,
                kept.deep_view() == before.take(i as int).filter(other),
                removed == before.take(i as int).contains(filename@),
            decreases self.files.len() - i,
        {
            proof {
                before.lemma_take_succ_push(i as int);
                before.take(i as int).lemma_filter_push(before[i as int], other);
            }
            let ghost kept_before = kept.deep_view();
            if self.files[i] == *filename {
                removed = true;
            } else {
                kept.push(self.files[i].clone());
                assert(kept.deep_view() =~= kept_before.push(before[i as int]));
            }
            assert(before.take(i + 1).contains(filename@) <==> before.take(i as int).contains(
                filename@,
            ) || before[i as int] == filename@) by {
                if before.take(i as int).contains(filename@) {
                    let j = choose|j: int|
                        0 <= j < before.take(i as int).len() && before.take(i as int)[j]
                            == filename@;
                    assert(before.take(i + 1)[j] == filename@);
                }
                if before[i as int] == filename@ {
                    assert(before.take(i + 1)[i as int] == filename@);
                }
            }
            i += 1;
        }
        proof {
            before.lemma_take_len();
            lemma_filter_members(before, other);
            assert(kept.deep_view().to_set() =~= before.to_set().remove(filename@));
        }
        self.files = kept;
        removed
    }
}

} // verus!
