use vstd::prelude::*;

verus! {

/// What a client asks of the server.
pub enum Request {
    Fetch(Fetch),
    Update(Update),
}

/// A read of the project's state.
pub enum Fetch {
    ProjectTree,
    /// A document, named by its path relative to the project root.
    Document(String),
}

/// A change to the project's state.
pub enum Update {
    Commit(Commit),
}

/// A batch of edits to one document: the deletions are applied first, in
/// order, then the insertions, in order, each against the text as the edits
/// before it left it.
pub struct Commit {
    pub document_path: String,
    /// Index and text of each insertion; no index occurs twice.
    pub insertions: Vec<(usize, String)>,
    pub deletions: Vec<std::ops::Range<usize>>,
}

/// No insertion index occurs twice.
pub open spec fn keys_unique(ins: Seq<(usize, String)>) -> bool {
    forall|i: int, j: int| 0 <= i < j < ins.len() ==> #[trigger] ins[i].0 != #[trigger] ins[j].0
}

/// The insertions as indices and character sequences.
pub open spec fn insertions_view(ins: Seq<(usize, String)>) -> Seq<(int, Seq<char>)> {
    ins.map_values(|e: (usize, String)| (e.0 as int, e.1@))
}

impl Commit {
    /// The insertions form a mapping: no index occurs twice.
    pub open spec fn well_formed(&self) -> bool {
        keys_unique(self.insertions@)
    }

    /// Whether no insertion index occurs twice.
    pub fn is_well_formed(&self) -> (r: bool)
        ensures
            r == self.well_formed(),
    {
        let n = self.insertions.len();
        let mut j: usize = 0;
        while j < n
            invariant
                n == self.insertions@.len(),
                j <= n,
                forall|a: int, b: int|
                    0 <= a < b < j ==> #[trigger] self.insertions@[a].0 != #[trigger] self.insertions@[b].0,
            decreases n - j,
        {
            let mut i: usize = 0;
            while i < j
                invariant
                    n == self.insertions@.len(),
                    i <= j < n,
                    forall|a: int| 0 <= a < i ==> #[trigger] self.insertions@[a].0 != self.insertions@[j as int].0,
                decreases j - i,
            {
                if self.insertions[i].0 == self.insertions[j].0 {
                    return false;
                }
                i = i + 1;
            }
            j = j + 1;
        }
        true
    }
}

} // verus!
