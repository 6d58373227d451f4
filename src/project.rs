use crate::client::{insertions_view, Commit};
use crate::document::{apply_edits, Document};
use vstd::prelude::*;

verus! {

/// Why a request on the project could not be served.
#[derive(Clone, Copy, Debug, PartialEq, Eq, Structural)]
pub enum ProjectError {
    /// The requested path resolves outside the project root.
    OutOfBounds,
    /// The backing file or directory could not be read.
    Io,
    /// An edit's index or span does not fit the document's current text.
    IndexOutOfRange,
    /// The request payload is malformed.
    Malformed,
    /// A message was addressed to a connection that is not registered.
    UnknownConnection,
}

impl ProjectError {
    /// A sentence describing the error.
    pub fn message(&self) -> (s: &'static str) {
        match self {
            ProjectError::OutOfBounds => "Object requested by client is out of the project's bounds",
            ProjectError::Io => "The requested file or directory could not be read",
            ProjectError::IndexOutOfRange => "An edit index lies outside the document",
            ProjectError::Malformed => "The request is malformed",
            ProjectError::UnknownConnection => "No connection is registered under that address",
        }
    }
}

/// A path as its sequence of components.
pub open spec fn components(v: Seq<String>) -> Seq<Seq<char>> {
    v.map_values(|s: String| s@)
}

/// The resolved form of a path, if it could be resolved.
pub open spec fn resolved_view(r: Option<Vec<String>>) -> Option<Seq<Seq<char>>> {
    match r {
        Some(v) => Some(components(v@)),
        None => None,
    }
}

/// A resolved path lies within `root` when `root` is a prefix of its
/// components; a path that could not be resolved lies nowhere.
pub open spec fn contained(root: Seq<Seq<char>>, resolved: Option<Seq<Seq<char>>>) -> bool {
    match resolved {
        Some(r) => root.len() <= r.len() && r.take(root.len() as int) == root,
        None => false,
    }
}

/// The abstract state of a project: its root and the text of each open
/// document, keyed by the relative path it was opened under.
pub struct ProjectView {
    pub root: Seq<Seq<char>>,
    pub docs: Map<Seq<char>, Seq<char>>,
}

/// Whether opening `rel` has to read the backing file: the path is
/// contained and no document is cached under it.
pub open spec fn needs_read_spec(p: ProjectView, rel: Seq<char>, resolved: Option<Seq<Seq<char>>>) -> bool {
    contained(p.root, resolved) && !p.docs.contains_key(rel)
}

/// Opening `rel`: the containment check comes first, on every call; a cached
/// document is returned as it is; otherwise the file's contents, when they
/// could be read, become a new cached document.
pub open spec fn open_step(
    p: ProjectView,
    rel: Seq<char>,
    resolved: Option<Seq<Seq<char>>>,
    contents: Option<Seq<char>>,
) -> (ProjectView, Result<Seq<char>, ProjectError>) {
    if !contained(p.root, resolved) {
        (p, Err(ProjectError::OutOfBounds))
    } else if p.docs.contains_key(rel) {
        (p, Ok(p.docs[rel]))
    } else {
        match contents {
            Some(t) => (ProjectView { root: p.root, docs: p.docs.insert(rel, t) }, Ok(t)),
            None => (p, Err(ProjectError::Io)),
        }
    }
}

/// A commit to the document at `rel`: the document is opened as by
/// `open_step`, then the edits are applied to it (see `apply_edits`). Edits
/// made before an invalid one stay applied.
pub open spec fn commit_step(
    p: ProjectView,
    rel: Seq<char>,
    resolved: Option<Seq<Seq<char>>>,
    contents: Option<Seq<char>>,
    deletions: Seq<std::ops::Range<usize>>,
    insertions: Seq<(int, Seq<char>)>,
) -> (ProjectView, Result<(), ProjectError>) {
    let (q, opened) = open_step(p, rel, resolved, contents);
    match opened {
        Err(e) => (q, Err(e)),
        Ok(t) => {
            let (u, ok) = apply_edits(t, deletions, insertions);
            (
                ProjectView { root: q.root, docs: q.docs.insert(rel, u) },
                if ok {
                    Ok(())
                } else {
                    Err(ProjectError::IndexOutOfRange)
                },
            )
        },
    }
}

/// A path whose resolved form does not lie within the root is refused with
/// `OutOfBounds` and opens nothing, whatever file stands at that place.
pub proof fn lemma_containment(
    p: ProjectView,
    rel: Seq<char>,
    resolved: Option<Seq<Seq<char>>>,
    contents: Option<Seq<char>>,
)
    requires
        !contained(p.root, resolved),
    ensures
        open_step(p, rel, resolved, contents) == (p, Err::<Seq<char>, ProjectError>(
            ProjectError::OutOfBounds,
        )),
{
}

/// After a successful open, the same path is served from the cache: it needs
/// no further read, and opening it again returns the cached text whatever
/// the backing file holds by then.
pub proof fn lemma_caching(
    p: ProjectView,
    rel: Seq<char>,
    resolved: Option<Seq<Seq<char>>>,
    first: Option<Seq<char>>,
    later: Option<Seq<char>>,
)
    requires
        open_step(p, rel, resolved, first).1 is Ok,
    ensures
        ({
            let (q, r) = open_step(p, rel, resolved, first);
            &&& !needs_read_spec(q, rel, resolved)
            &&& open_step(q, rel, resolved, later) == (q, r)
        }),
{
}

/// A project: the root directory and the documents opened from it.
pub struct Project {
    path: Vec<String>,
    open_documents: Vec<(String, Document)>,
    docs: Ghost<Map<Seq<char>, Seq<char>>>,
}

impl View for Project {
    type V = ProjectView;

    closed spec fn view(&self) -> ProjectView {
        ProjectView { root: components(self.path@), docs: self.docs@ }
    }
}

impl Project {
    /// One cached document per key, and the ghost map mirrors the entries.
    pub closed spec fn wf(&self) -> bool {
        &&& forall|i: int, j: int|
            0 <= i < j < self.open_documents@.len() ==> #[trigger] self.open_documents@[i].0@
                != #[trigger] self.open_documents@[j].0@
        &&& forall|i: int|
            0 <= i < self.open_documents@.len() ==> #[trigger] self.docs@.contains_key(
                self.open_documents@[i].0@,
            ) && self.docs@[self.open_documents@[i].0@] == self.open_documents@[i].1@
        &&& forall|k: Seq<char>|
            #[trigger] self.docs@.contains_key(k) ==> exists|i: int|
                0 <= i < self.open_documents@.len() && #[trigger] self.open_documents@[i].0@ == k
    }

    /// A project rooted at `path`, given by its components, with nothing open.
    pub fn from(path: Vec<String>) -> (p: Project)
        ensures
            p.wf(),
            p@.root == components(path@),
            p@.docs == Map::<Seq<char>, Seq<char>>::empty(),
    {
        Project { path, open_documents: Vec::new(), docs: Ghost(Map::empty()) }
    }

    /// The root directory, by components.
    pub fn path(&self) -> (r: &Vec<String>)
        ensures
            components(r@) == self@.root,
    {
        &self.path
    }

    /// Whether `resolved` (the filesystem's resolution of a path, `None` when
    /// it could not be resolved) lies within the root.
    pub fn is_valid_path(&self, resolved: &Option<Vec<String>>) -> (r: bool)
        ensures
            r == contained(self@.root, resolved_view(*resolved)),
    {
        match resolved {
            None => false,
            Some(v) => {
                let n = self.path.len();
                if v.len() < n {
                    return false;
                }
                let mut i: usize = 0;
                while i < n
                    invariant
                        n == self.path@.len(),
                        n <= v@.len(),
                        resolved_view(*resolved) == Some(components(v@)),
                        i <= n,
                        forall|j: int| 0 <= j < i ==> #[trigger] v@[j]@ == self.path@[j]@,
                    decreases n - i,
                {
                    if !(v[i] == self.path[i]) {
                        proof {
                            assert(components(v@).take(n as int)[i as int] == v@[i as int]@);
                            assert(components(self.path@)[i as int] == self.path@[i as int]@);
                            assert(components(v@).take(n as int)[i as int] != components(
                                self.path@,
                            )[i as int]);
                        }
                        return false;
                    }
                    i = i + 1;
                }
                proof {
                    assert(components(v@).take(n as int) =~= components(self.path@));
                }
                true
            },
        }
    }

    /// Position of the entry cached under `rel`, if any.
    fn find(&self, rel: &String) -> (r: Option<usize>)
        requires
            self.wf(),
        ensures
            r is None <==> !self@.docs.contains_key(rel@),
            r matches Some(i) ==> i < self.open_documents@.len() && self.open_documents@[i as int].0@
                == rel@,
    {
        let n = self.open_documents.len();
        let mut i: usize = 0;
        while i < n
            invariant
                self.wf(),
                n == self.open_documents@.len(),
                i <= n,
                forall|j: int| 0 <= j < i ==> #[trigger] self.open_documents@[j].0@ != rel@,
            decreases n - i,
        {
            if self.open_documents[i].0 == *rel {
                proof {
                    assert(self.docs@.contains_key(self.open_documents@[i as int].0@));
                }
                return Some(i);
            }
            i = i + 1;
        }
        None
    }

    /// Whether opening `relative_path` has to read its backing file.
    pub fn needs_read(&self, relative_path: &String, resolved: &Option<Vec<String>>) -> (r: bool)
        requires
            self.wf(),
        ensures
            r == needs_read_spec(self@, relative_path@, resolved_view(*resolved)),
    {
        self.is_valid_path(resolved) && self.find(relative_path).is_none()
    }

    /// Applies `commit` to the document at its path (see `commit_step`);
    /// `resolved` and `contents` are as for `open_document`.
    pub fn apply_commit(
        &mut self,
        commit: &Commit,
        resolved: &Option<Vec<String>>,
        contents: Option<String>,
    ) -> (r: Result<(), ProjectError>)
        requires
            old(self).wf(),
        ensures
            final(self).wf(),
            (final(self)@, r) == commit_step(
                old(self)@,
                commit.document_path@,
                resolved_view(*resolved),
                match contents {
                    Some(s) => Some(s@),
                    None => None,
                },
                commit.deletions@,
                insertions_view(commit.insertions@),
            ),
    {
        let opened = self.open_document(&commit.document_path, resolved, contents);
        if let Err(e) = opened {
            return Err(e);
        }
        let i = match self.find(&commit.document_path) {
            Some(i) => i,
            None => {
                return Err(ProjectError::Io);
            },
        };
        let ghost entries = self.open_documents@;
        let ghost key = self.open_documents@[i as int].0@;
        let ok = self.open_documents[i].1.apply_commit(commit);
        proof {
            self.docs@ = self.docs@.insert(key, self.open_documents@[i as int].1@);
            assert(self.open_documents@.len() == entries.len());
            assert forall|j: int| 0 <= j < entries.len() && j != i implies #[trigger] self.open_documents@[j]
                == entries[j] by {}
            assert(self.open_documents@[i as int].0 == entries[i as int].0);
            assert forall|k: Seq<char>| #[trigger] self.docs@.contains_key(k) implies exists|j: int|
                0 <= j < self.open_documents@.len() && #[trigger] self.open_documents@[j].0@ == k by {
                let j = choose|j: int| 0 <= j < entries.len() && #[trigger] entries[j].0@ == k;
                assert(self.open_documents@[j].0@ == k);
            }
        }
        if ok {
            Ok(())
        } else {
            Err(ProjectError::IndexOutOfRange)
        }
    }

    /// Opens `relative_path` (see `open_step`). `resolved` is the
    /// filesystem's resolution of the path joined to the root; `contents` is
    /// the backing file's text, read only when `needs_read` said so.
    pub fn open_document(
        &mut self,
        relative_path: &String,
        resolved: &Option<Vec<String>>,
        contents: Option<String>,
    ) -> (r: Result<&Document, ProjectError>)
        requires
            old(self).wf(),
        ensures
            final(self).wf(),
            ({
                let (p, res) = open_step(
                    old(self)@,
                    relative_path@,
                    resolved_view(*resolved),
                    match contents {
                        Some(s) => Some(s@),
                        None => None,
                    },
                );
                &&& final(self)@ == p
                &&& res is Ok <==> r is Ok
                &&& r matches Ok(d) ==> res == Ok::<Seq<char>, ProjectError>(d@)
                &&& r matches Err(e) ==> res == Err::<Seq<char>, ProjectError>(e)
            }),
    {
        if !self.is_valid_path(resolved) {
            return Err(ProjectError::OutOfBounds);
        }
        match self.find(relative_path) {
            Some(i) => Ok(&self.open_documents[i].1),
            None => match contents {
                None => Err(ProjectError::Io),
                Some(text) => {
                    let document = Document::from(text);
                    let ghost n: int = self.open_documents@.len() as int;
                    self.open_documents.push((relative_path.clone(), document));
                    proof {
                        self.docs@ = self.docs@.insert(relative_path@, self.open_documents@[n].1@);
                        assert forall|k: Seq<char>| #[trigger] self.docs@.contains_key(k) implies exists|
                            i: int,
                        |
                            0 <= i < self.open_documents@.len() && #[trigger] self.open_documents@[i].0@
                                == k by {
                            if k != relative_path@ {
                                let i = choose|i: int|
                                    0 <= i < old(self).open_documents@.len()
                                        && #[trigger] old(self).open_documents@[i].0@ == k;
                                assert(self.open_documents@[i] == old(self).open_documents@[i]);
                            } else {
                                assert(self.open_documents@[n].0@ == k);
                            }
                        }
                    }
                    Ok(&self.open_documents[self.open_documents.len() - 1].1)
                },
            },
        }
    }
}

} // verus!
