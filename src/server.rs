use crate::client::{insertions_view, Commit, Fetch, Request, Update};
use crate::document::{apply_edits, Document};
use crate::project::{
    commit_step, open_step, resolved_view, Project, ProjectError, ProjectView,
};
use crate::tree::Tree;
use vstd::prelude::*;

verus! {

/// The network identity of a connection: an IP address (a v4 address in
/// the low 32 bits) and a port.
#[derive(Clone, Copy, Debug, PartialEq, Eq, Structural, Hash)]
pub struct Address {
    pub ip: u128,
    pub port: u16,
    pub v6: bool,
}

/// A commit relayed to the connections that did not make it.
pub enum Notification {
    Commit(Commit),
}

/// What the server sends back.
pub enum Response {
    Acknowledge,
    Document(Document),
    ProjectTree(Tree),
    Notify(Notification),
}

/// What the host found on disk for a request.
pub enum Disk {
    /// The walk of the project root, for a tree request.
    Listing(Tree),
    /// The walk of the project root failed.
    Unreadable,
    /// For a request naming a path: the filesystem's resolution of the path
    /// joined to the root (`None` when it does not resolve), and the file's
    /// text when it was read (`None` when it was not needed or could not be
    /// read).
    File { resolved: Option<Vec<String>>, contents: Option<String> },
}

/// The answer to a request, and, after a commit, the notification and the
/// registry slots of the connections it goes to.
pub struct Reply {
    pub response: Response,
    pub broadcast: Option<(Notification, Vec<usize>)>,
}

/// The slots of the registry, in increasing order, whose connection is not
/// `a`.
pub open spec fn others(clients: Seq<Address>, a: Address) -> Seq<int>
    decreases clients.len(),
{
    if clients.len() == 0 {
        Seq::empty()
    } else {
        let rest = others(clients.drop_last(), a);
        if clients.last() != a {
            rest.push(clients.len() - 1)
        } else {
            rest
        }
    }
}

/// `others` lists, in increasing order, exactly the slots whose connection
/// is not `a`.
proof fn lemma_others(clients: Seq<Address>, a: Address)
    ensures
        forall|k: int|
            0 <= k < others(clients, a).len() ==> 0 <= #[trigger] others(clients, a)[k] < clients.len()
                && clients[others(clients, a)[k]] != a,
        forall|k: int, l: int|
            0 <= k < l < others(clients, a).len() ==> #[trigger] others(clients, a)[k] < #[trigger] others(
                clients,
                a,
            )[l],
        forall|j: int|
            0 <= j < clients.len() && #[trigger] clients[j] != a ==> exists|k: int|
                0 <= k < others(clients, a).len() && others(clients, a)[k] == j,
    decreases clients.len(),
{
    if clients.len() > 0 {
        let c = clients.drop_last();
        lemma_others(c, a);
        let o = others(c, a);
        assert forall|j: int| 0 <= j < clients.len() && #[trigger] clients[j] != a implies exists|k: int|
            0 <= k < others(clients, a).len() && others(clients, a)[k] == j by {
            if j < c.len() {
                assert(c[j] == clients[j]);
                let k = choose|k: int| 0 <= k < o.len() && o[k] == j;
                assert(others(clients, a)[k] == j);
            } else {
                assert(others(clients, a)[o.len() as int] == j);
            }
        }
    }
}

/// Broadcast exclusion: after a commit by `committer`, every other
/// registered connection is sent the notification exactly once, and the
/// committer is sent nothing.
pub proof fn lemma_broadcast_exclusion(clients: Seq<Address>, committer: Address, peer: Address)
    requires
        unique(clients),
    ensures
        forall|k: int|
            0 <= k < others(clients, committer).len() ==> clients[#[trigger] others(clients, committer)[k]]
                != committer,
        peer != committer && clients.contains(peer) ==> exists|k: int|
            0 <= k < others(clients, committer).len() && clients[others(clients, committer)[k]] == peer
                && forall|l: int|
                0 <= l < others(clients, committer).len() && clients[#[trigger] others(
                    clients,
                    committer,
                )[l]] == peer ==> l == k,
{
    lemma_others(clients, committer);
    let o = others(clients, committer);
    if peer != committer && clients.contains(peer) {
        let j = choose|j: int| 0 <= j < clients.len() && clients[j] == peer;
        assert(clients[j] != committer);
        let k = choose|k: int| 0 <= k < o.len() && o[k] == j;
        assert forall|l: int| 0 <= l < o.len() && clients[#[trigger] o[l]] == peer implies l == k by {
            if o[l] != j {
                if o[l] < j {
                    assert(clients[o[l]] != clients[j]);
                } else {
                    assert(clients[j] != clients[o[l]]);
                }
            }
            if l < k {
                assert(o[l] < o[k]);
            } else if k < l {
                assert(o[k] < o[l]);
            }
        }
    }
}

/// Two commits served one after the other on the same document are applied
/// in that order: the second edits the text that the first left.
pub proof fn lemma_commits_in_order(
    p: ProjectView,
    rel: Seq<char>,
    resolved: Option<Seq<Seq<char>>>,
    first_contents: Option<Seq<char>>,
    later_contents: Option<Seq<char>>,
    d1: Seq<std::ops::Range<usize>>,
    i1: Seq<(int, Seq<char>)>,
    d2: Seq<std::ops::Range<usize>>,
    i2: Seq<(int, Seq<char>)>,
)
    requires
        commit_step(p, rel, resolved, first_contents, d1, i1).1 is Ok,
    ensures
        ({
            let t0 = open_step(p, rel, resolved, first_contents).1->Ok_0;
            let q1 = commit_step(p, rel, resolved, first_contents, d1, i1).0;
            let q2 = commit_step(q1, rel, resolved, later_contents, d2, i2).0;
            &&& q1.docs[rel] == apply_edits(t0, d1, i1).0
            &&& q2.docs[rel] == apply_edits(apply_edits(t0, d1, i1).0, d2, i2).0
        }),
{
}

/// No address is registered twice.
pub open spec fn unique(clients: Seq<Address>) -> bool {
    forall|i: int, j: int| 0 <= i < j < clients.len() ==> clients[i] != clients[j]
}

/// The abstract state of the server: the project and the registered
/// connections, by slot.
pub struct ServerView {
    pub project: ProjectView,
    pub clients: Seq<Address>,
}

/// The parts of a request that the contracts speak of.
pub open spec fn file_view(disk: Disk) -> (Option<Seq<Seq<char>>>, Option<Seq<char>>) {
    match disk {
        Disk::File { resolved, contents } => (
            resolved_view(resolved),
            match contents {
                Some(s) => Some(s@),
                None => None,
            },
        ),
        _ => (None, None),
    }
}

/// The synchronization engine: the project store and the connection
/// registry, driven by one request at a time.
pub struct Server {
    project: Project,
    clients: Vec<Address>,
}

impl View for Server {
    type V = ServerView;

    closed spec fn view(&self) -> ServerView {
        ServerView { project: self.project@, clients: self.clients@ }
    }
}

impl Server {
    pub closed spec fn wf(&self) -> bool {
        self.project.wf() && unique(self.clients@)
    }

    /// A server for `project` with no connection registered.
    pub fn new(project: Project) -> (s: Server)
        requires
            project.wf(),
        ensures
            s.wf(),
            unique(s@.clients),
            s@.project == project@,
            s@.clients == Seq::<Address>::empty(),
    {
        Server { project, clients: Vec::new() }
    }

    /// The project served.
    pub fn project(&self) -> (p: &Project)
        requires
            self.wf(),
        ensures
            p.wf(),
            p@ == self@.project,
    {
        &self.project
    }

    /// The slot of `address`, if it is registered.
    fn slot(&self, address: Address) -> (r: Option<usize>)
        ensures
            r is None <==> !self@.clients.contains(address),
            r matches Some(i) ==> i < self@.clients.len() && self@.clients[i as int] == address,
    {
        let n = self.clients.len();
        let mut i: usize = 0;
        while i < n
            invariant
                n == self.clients@.len(),
                i <= n,
                forall|j: int| 0 <= j < i ==> self.clients@[j] != address,
            decreases n - i,
        {
            if self.clients[i] == address {
                return Some(i);
            }
            i = i + 1;
        }
        None
    }

    /// Registers `address`, unless it already is: the registry keeps the
    /// first registration. The result is its slot, and whether it is new.
    pub fn register_client(&mut self, address: Address) -> (r: (usize, bool))
        requires
            old(self).wf(),
        ensures
            final(self).wf(),
            unique(final(self)@.clients),
            final(self)@.project == old(self)@.project,
            r.1 == !old(self)@.clients.contains(address),
            r.1 ==> final(self)@.clients == old(self)@.clients.push(address),
            !r.1 ==> final(self)@.clients == old(self)@.clients,
            r.0 < final(self)@.clients.len(),
            final(self)@.clients[r.0 as int] == address,
    {
        match self.slot(address) {
            Some(i) => (i, false),
            None => {
                let n = self.clients.len();
                self.clients.push(address);
                (n, true)
            },
        }
    }

    /// The slot of `address`; `UnknownConnection` when it is not registered.
    pub fn get_client(&self, address: Address) -> (r: Result<usize, ProjectError>)
        ensures
            r is Err <==> !self@.clients.contains(address),
            r matches Err(e) ==> e == ProjectError::UnknownConnection,
            r matches Ok(i) ==> i < self@.clients.len() && self@.clients[i as int] == address,
    {
        match self.slot(address) {
            Some(i) => Ok(i),
            None => Err(ProjectError::UnknownConnection),
        }
    }

    /// The slots of every registered connection but `notifier`, in order.
    pub fn recipients(&self, notifier: Address) -> (r: Vec<usize>)
        ensures
            r@.map_values(|i: usize| i as int) == others(self@.clients, notifier),
    {
        let n = self.clients.len();
        let mut r: Vec<usize> = Vec::new();
        let mut i: usize = 0;
        while i < n
            invariant
                n == self.clients@.len(),
                i <= n,
                r@.map_values(|i: usize| i as int) == others(self.clients@.take(i as int), notifier),
            decreases n - i,
        {
            proof {
                assert(self.clients@.take(i + 1).drop_last() =~= self.clients@.take(i as int));
            }
            let ghost before = r@;
            if self.clients[i] != notifier {
                r.push(i);
                assert(r@.map_values(|i: usize| i as int) =~= before.map_values(|i: usize| i as int).push(i as int));
            }
            i = i + 1;
        }
        proof {
            assert(self.clients@.take(n as int) =~= self.clients@);
        }
        r
    }

    /// Applies `commit` for the connection at `address` (see `commit_step`)
    /// and, when it succeeds, hands back the notification to relay, which
    /// carries the commit itself, and the slots of every other registered
    /// connection. A commit that names an insertion index twice is refused
    /// with `Malformed` and changes nothing.
    pub fn commit(
        &mut self,
        address: Address,
        commit: Commit,
        resolved: &Option<Vec<String>>,
        contents: Option<String>,
    ) -> (r: Result<(Notification, Vec<usize>), ProjectError>)
        requires
            old(self).wf(),
        ensures
            final(self).wf(),
            final(self)@.clients == old(self)@.clients,
            !commit.well_formed() ==> r == Err::<(Notification, Vec<usize>), ProjectError>(
                ProjectError::Malformed,
            ) && final(self)@ == old(self)@,
            commit.well_formed() ==> ({
                let (q, res) = commit_step(
                    old(self)@.project,
                    commit.document_path@,
                    resolved_view(*resolved),
                    match contents {
                        Some(s) => Some(s@),
                        None => None,
                    },
                    commit.deletions@,
                    insertions_view(commit.insertions@),
                );
                &&& final(self)@.project == q
                &&& res is Ok <==> r is Ok
                &&& r matches Err(e) ==> res == Err::<(), ProjectError>(e)
                &&& r matches Ok((n, v)) ==> n == Notification::Commit(commit) && v@.map_values(
                    |i: usize| i as int,
                ) == others(old(self)@.clients, address)
            }),
    {
        if !commit.is_well_formed() {
            return Err(ProjectError::Malformed);
        }
        match self.project.apply_commit(&commit, resolved, contents) {
            Err(e) => Err(e),
            Ok(()) => {
                let targets = self.recipients(address);
                Ok((Notification::Commit(commit), targets))
            },
        }
    }

    /// Serves one request from the connection at `address`, given what the
    /// host found on disk for it: a tree request answers with the listing;
    /// a document request opens the document (see `open_step`) and answers
    /// with a snapshot of its text; a commit is applied (see `commit`) and
    /// acknowledged, and its notification is to go to every other
    /// connection.
    pub fn handle_request(&mut self, address: Address, request: Request, disk: Disk) -> (r: Result<
        Reply,
        ProjectError,
    >)
        requires
            old(self).wf(),
        ensures
            final(self).wf(),
            final(self)@.clients == old(self)@.clients,
            request matches Request::Fetch(Fetch::ProjectTree) ==> final(self)@ == old(self)@ && (
            match disk {
                Disk::Listing(t) => r matches Ok(reply) && reply.response == Response::ProjectTree(t)
                    && reply.broadcast is None,
                _ => r == Err::<Reply, ProjectError>(ProjectError::Io),
            }),
            request matches Request::Fetch(Fetch::Document(path)) ==> ({
                let (q, res) = open_step(
                    old(self)@.project,
                    path@,
                    file_view(disk).0,
                    file_view(disk).1,
                );
                &&& final(self)@.project == q
                &&& res is Ok <==> r is Ok
                &&& r matches Err(e) ==> res == Err::<Seq<char>, ProjectError>(e)
                &&& r matches Ok(reply) ==> reply.broadcast is None && (reply.response matches Response::Document(d)
                    && res == Ok::<Seq<char>, ProjectError>(d@))
            }),
            request matches Request::Update(Update::Commit(c)) ==> (!c.well_formed() ==> r == Err::<
                Reply,
                ProjectError,
            >(ProjectError::Malformed) && final(self)@ == old(self)@),
            request matches Request::Update(Update::Commit(c)) ==> (c.well_formed() ==> ({
                let (q, res) = commit_step(
                    old(self)@.project,
                    c.document_path@,
                    file_view(disk).0,
                    file_view(disk).1,
                    c.deletions@,
                    insertions_view(c.insertions@),
                );
                &&& final(self)@.project == q
                &&& res is Ok <==> r is Ok
                &&& r matches Err(e) ==> res == Err::<(), ProjectError>(e)
                &&& r matches Ok(reply) ==> reply.response == Response::Acknowledge && (
                reply.broadcast matches Some((n, v)) && n == Notification::Commit(c) && v@.map_values(
                    |i: usize| i as int,
                ) == others(old(self)@.clients, address))
            })),
    {
        match request {
            Request::Fetch(Fetch::ProjectTree) => match disk {
                Disk::Listing(t) => Ok(Reply { response: Response::ProjectTree(t), broadcast: None }),
                _ => Err(ProjectError::Io),
            },
            Request::Fetch(Fetch::Document(path)) => {
                let (resolved, contents) = match disk {
                    Disk::File { resolved, contents } => (resolved, contents),
                    _ => (None, None),
                };
                match self.project.open_document(&path, &resolved, contents) {
                    Ok(d) => Ok(Reply { response: Response::Document(d.snapshot()), broadcast: None }),
                    Err(e) => Err(e),
                }
            },
            Request::Update(Update::Commit(c)) => {
                let (resolved, contents) = match disk {
                    Disk::File { resolved, contents } => (resolved, contents),
                    _ => (None, None),
                };
                match self.commit(address, c, &resolved, contents) {
                    Ok(out) => Ok(Reply { response: Response::Acknowledge, broadcast: Some(out) }),
                    Err(e) => Err(e),
                }
            },
        }
    }
}

} // verus!
