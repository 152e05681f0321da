use vstd::prelude::*;

verus! {

/// What kind of decoy an artifact is.
#[derive(PartialEq, Eq, Structural, Clone, Copy, Debug)]
pub enum Kind {
    RegistryKey,
    Mutex,
    NamedPipe,
    FakeProcess,
}

/// One decoy: its kind and the path or name under which it is created.
#[derive(Clone, Debug)]
pub struct Artifact {
    pub kind: Kind,
    pub path: String,
}

/// A named group of artifacts that the user enables or disables as a whole.
#[derive(Clone, Debug)]
pub struct Category {
    pub id: String,
    pub name: String,
    pub description: String,
    /// If set, randomly sample this many process artifacts instead of spawning all.
    pub sample: Option<usize>,
    pub artifacts: Vec<Artifact>,
}

/// The artifact database: a version label and its categories.
#[derive(Clone, Debug)]
pub struct Db {
    pub version: String,
    pub categories: Vec<Category>,
}

impl Category {
    /// Whether some artifact of the category is a ghost process.
    pub open spec fn holds_process(self) -> bool {
        exists|i: int| 0 <= i < self.artifacts@.len() && #[trigger] self.artifacts@[i].kind == Kind::FakeProcess
    }

    /// True exactly when the category has at least one `FakeProcess` artifact.
    pub fn has_processes(&self) -> (r: bool)
        ensures
            r == self.holds_process(),
    {
        let n = self.artifacts.len();
        let mut i: usize = 0;
        while i < n
            invariant
                n == self.artifacts@.len(),
                i <= n,
                forall|j: int| 0 <= j < i ==> #[trigger] self.artifacts@[j].kind != Kind::FakeProcess,
            decreases n - i,
        {
            if self.artifacts[i].kind == Kind::FakeProcess {
                return true;
            }
            i = i + 1;
        }
        false
    }
}

} // verus!
