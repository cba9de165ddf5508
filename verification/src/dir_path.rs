use vstd::prelude::*;

verus! {

/// A directory path, modelled as the sequence of its name components from the
/// filesystem root. The empty sequence stands for the root itself. Every path
/// is understood as absolute: relative paths are resolved against the CWD
/// before they reach this model.
#[derive(Debug)]
pub struct DirPath {
    pub components: Vec<String>,
}

impl View for DirPath {
    type V = Seq<Seq<char>>;

    open spec fn view(&self) -> Seq<Seq<char>> {
        self.components.deep_view()
    }
}

/// `p` names `q` itself or a directory that `q` lies under.
pub open spec fn is_path_prefix(p: Seq<Seq<char>>, q: Seq<Seq<char>>) -> bool {
    p.len() <= q.len() && q.subrange(0, p.len() as int) == p
}

/// The immediate parent of a non-root path.
pub open spec fn parent_of(p: Seq<Seq<char>>) -> Seq<Seq<char>>
    recommends
        p.len() > 0,
{
    p.drop_last()
}

impl DirPath {
    /// A path with the same components.
    pub fn duplicate(&self) -> (r: DirPath)
        ensures
            r@ == self@,
    {
        let mut components: Vec<String> = Vec::new();
        let mut i: usize = 0;
        while i < self.components.len()
            invariant
                i <= self.components@.len(),
                components@.len() == i as int,
                forall|j: int| 0 <= j < i ==> components@[j]@ == self.components@[j]@,
            decreases self.components@.len() - i,
        {
            components.push(self.components[i].clone());
            i = i + 1;
        }
        let r = DirPath { components };
        proof {
            assert(r@ =~= self@);
        }
        r
    }

    /// The path made of the first `k` components.
    pub fn prefix(&self, k: usize) -> (r: DirPath)
        requires
            k <= self.components@.len(),
        ensures
            r@ == self@.subrange(0, k as int),
    {
        let mut components: Vec<String> = Vec::new();
        let mut i: usize = 0;
        while i < k
            invariant
                i <= k <= self.components@.len(),
                components@.len() == i as int,
                forall|j: int| 0 <= j < i ==> components@[j]@ == self.components@[j]@,
            decreases k - i,
        {
            components.push(self.components[i].clone());
            i = i + 1;
        }
        let r = DirPath { components };
        proof {
            assert(r@ =~= self@.subrange(0, k as int));
        }
        r
    }

    /// Whether the two paths name the same directory.
    pub fn same_as(&self, other: &DirPath) -> (r: bool)
        ensures
            r == (self@ == other@),
    {
        if self.components.len() != other.components.len() {
            proof {
                assert(self@.len() != other@.len());
            }
            return false;
        }
        let mut i: usize = 0;
        while i < self.components.len()
            invariant
                i <= self.components@.len(),
                self.components@.len() == other.components@.len(),
                forall|j: int| 0 <= j < i ==> self@[j] == other@[j],
            decreases self.components@.len() - i,
        {
            if !(self.components[i] == other.components[i]) {
                proof {
                    assert(self@[i as int] != other@[i as int]);
                }
                return false;
            }
            i = i + 1;
        }
        proof {
            assert(self@ =~= other@);
        }
        true
    }

    /// Whether this path equals `other` or lies under it.
    pub fn starts_with(&self, other: &DirPath) -> (r: bool)
        ensures
            r == is_path_prefix(other@, self@),
    {
        if other.components.len() > self.components.len() {
            return false;
        }
        let mut i: usize = 0;
        while i < other.components.len()
            invariant
                i <= other.components@.len(),
                other.components@.len() <= self.components@.len(),
                forall|j: int| 0 <= j < i ==> self@[j] == other@[j],
            decreases other.components@.len() - i,
        {
            if !(self.components[i] == other.components[i]) {
                proof {
                    assert(self@.subrange(0, other@.len() as int)[i as int] != other@[i as int]);
                }
                return false;
            }
            i = i + 1;
        }
        proof {
            assert(self@.subrange(0, other@.len() as int) =~= other@);
        }
        true
    }
}

} // verus!
