//! The mapping from names to storage locations under a configured root.
use crate::error::StoreError;
use vstd::prelude::*;

verus! {

/// A character that could lead a location out of the root directory: a path
/// separator, the dot, or NUL.
pub open spec fn is_traversal_char(c: char) -> bool {
    c == '/' || c == '\\' || c == '.' || c == '\0'
}

/// A name that can be resolved: not empty, and free of path-traversal
/// characters.
pub open spec fn valid_name(name: Seq<char>) -> bool {
    &&& name.len() > 0
    &&& forall|i: int| 0 <= i < name.len() ==> !is_traversal_char(#[trigger] name[i])
}

/// Whether `name` can be resolved.
pub fn is_valid_name(name: &str) -> (ok: bool)
    ensures
        ok == valid_name(name@),
{
    let mut empty = true;
    for c in it: name.chars()
        invariant
            it.seq() == name@,
            empty == (it.index() == 0),
            forall|i: int| 0 <= i < it.index() ==> !is_traversal_char(#[trigger] name@[i]),
    {
        if c == '/' || c == '\\' || c == '.' || c == '\0' {
            return false;
        }
        empty = false;
    }
    !empty
}

/// A pure mapping from names to locations under one root directory.
pub struct AddressSpace {
    root: String,
}

impl AddressSpace {
    /// The configured root directory.
    pub closed spec fn root(&self) -> Seq<char> {
        self.root@
    }

    /// The location of `name`: the root, a separator, and the name.
    pub open spec fn location(&self, name: Seq<char>) -> Seq<char> {
        self.root() + seq!['/'] + name
    }

    /// Distinct names have distinct locations.
    pub proof fn lemma_location_injective(&self, a: Seq<char>, b: Seq<char>)
        requires
            self.location(a) == self.location(b),
        ensures
            a == b,
    {
        let prefix = self.root() + seq!['/'];
        let la = self.location(a);
        let lb = self.location(b);
        assert(la.subrange(prefix.len() as int, la.len() as int) =~= a);
        assert(lb.subrange(prefix.len() as int, lb.len() as int) =~= b);
    }

    /// A location lies directly under the root: what follows the root and
    /// its separator is the name, which holds no separator and no dot.
    pub proof fn lemma_location_under_root(&self, name: Seq<char>, i: int)
        requires
            valid_name(name),
            self.root().len() < i < self.location(name).len(),
        ensures
            self.location(name).subrange(0, self.root().len() as int) == self.root(),
            self.location(name)[self.root().len() as int] == '/',
            !is_traversal_char(self.location(name)[i]),
    {
        assert(self.location(name).subrange(0, self.root().len() as int) =~= self.root());
        assert(self.location(name)[i] == name[i - self.root().len() - 1]);
    }

    /// An address space under `root`.
    pub fn new(root: String) -> (space: AddressSpace)
        ensures
            space.root() == root@,
    {
        AddressSpace { root }
    }

    /// The configured root directory.
    pub fn root_dir(&self) -> (root: &String)
        ensures
            root@ == self.root(),
    {
        &self.root
    }

    /// The location of `name`, or `InvalidName` where the name is empty or
    /// holds a path-traversal character.
    pub fn resolve(&self, name: &str) -> (r: Result<String, StoreError>)
        ensures
            valid_name(name@) ==> r is Ok && r->Ok_0@ == self.location(name@),
            !valid_name(name@) ==> r == Err::<String, StoreError>(StoreError::InvalidName),
    {
        if !is_valid_name(name) {
            return Err(StoreError::InvalidName);
        }
        let mut location = self.root.clone();
        location.append("/");
        location.append(name);
        proof {
            reveal_strlit("/");
            assert("/"@ =~= seq!['/']);
        }
        Ok(location)
    }
}

} // verus!
