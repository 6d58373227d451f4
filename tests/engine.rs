use collab_server::client::{Commit, Fetch, Request, Update};
use collab_server::document::Document;
use collab_server::project::{Project, ProjectError};
use collab_server::server::{Address, Disk, Notification, Response, Server};
use collab_server::tree::{Entry, TreeBuilder};

fn parts(p: &str) -> Vec<String> {
    p.split('/').filter(|s| !s.is_empty()).map(|s| s.to_string()).collect()
}

fn addr(port: u16) -> Address {
    Address { ip: 0x7f00_0001, port, v6: false }
}

fn commit(path: &str, insertions: Vec<(usize, &str)>, deletions: Vec<std::ops::Range<usize>>) -> Commit {
    Commit {
        document_path: path.to_string(),
        insertions: insertions.into_iter().map(|(i, s)| (i, s.to_string())).collect(),
        deletions,
    }
}

fn file(path: &str, contents: Option<&str>) -> Disk {
    Disk::File { resolved: Some(parts(path)), contents: contents.map(|s| s.to_string()) }
}

#[test]
fn commit_deletes_then_inserts() {
    let mut d = Document::from("hello".to_string());
    let c = commit("a.txt", vec![(0, "X")], vec![0..1]);
    assert!(d.apply_commit(&c));
    assert_eq!(d.to_text(), "Xello");
}

#[test]
fn deletions_apply_to_progressive_text() {
    let mut d = Document::from("abcdef".to_string());
    let c = commit("a.txt", vec![], vec![0..2, 0..2]);
    assert!(d.apply_commit(&c));
    assert_eq!(d.to_text(), "ef");
}

#[test]
fn insertions_apply_in_order() {
    let mut d = Document::from("ac".to_string());
    let c = commit("a.txt", vec![(1, "b"), (3, "!"), (0, ">")], vec![]);
    assert!(d.apply_commit(&c));
    assert_eq!(d.to_text(), ">abc!");
}

#[test]
fn invalid_edit_keeps_earlier_edits() {
    let mut d = Document::from("hello".to_string());
    let c = commit("a.txt", vec![(0, "X")], vec![0..1, 3..9]);
    assert!(!d.apply_commit(&c));
    assert_eq!(d.to_text(), "ello");
    let mut e = Document::from("hi".to_string());
    let c = commit("a.txt", vec![(2, "!"), (7, "?")], vec![]);
    assert!(!e.apply_commit(&c));
    assert_eq!(e.to_text(), "hi!");
}

#[test]
fn document_edits_count_characters() {
    let mut d = Document::from("h\u{e9}llo".to_string());
    assert_eq!(d.len(), 5);
    assert!(d.insert(2, "\u{2603}"));
    assert_eq!(d.to_text(), "h\u{e9}\u{2603}llo");
    assert!(d.remove(0..2));
    assert_eq!(d.to_text(), "\u{2603}llo");
    assert!(!d.remove(2..1));
    assert!(!d.insert(5, "x"));
    assert!(d.remove(4..4));
    assert_eq!(d.snapshot().to_text(), "\u{2603}llo");
}

#[test]
fn path_outside_root_is_refused() {
    let mut p = Project::from(parts("/srv/proj"));
    let resolved = Some(parts("/srv/other/secret.txt"));
    assert!(!p.is_valid_path(&resolved));
    assert!(!p.needs_read(&"../other/secret.txt".to_string(), &resolved));
    let r = p.open_document(&"../other/secret.txt".to_string(), &resolved, Some("x".to_string()));
    assert!(matches!(r, Err(ProjectError::OutOfBounds)));
    let r = p.open_document(&"missing".to_string(), &None, None);
    assert!(matches!(r, Err(ProjectError::OutOfBounds)));
    assert!(!p.is_valid_path(&Some(parts("/srv/proj2/a"))));
    assert!(p.is_valid_path(&Some(parts("/srv/proj/a"))));
    assert!(p.is_valid_path(&Some(parts("/srv/proj"))));
}

#[test]
fn document_is_read_once() {
    let mut p = Project::from(parts("/srv/proj"));
    let rel = "notes/a.txt".to_string();
    let resolved = Some(parts("/srv/proj/notes/a.txt"));
    assert!(p.needs_read(&rel, &resolved));
    let text = p.open_document(&rel, &resolved, Some("first".to_string())).unwrap().to_text();
    assert_eq!(text, "first");
    assert!(!p.needs_read(&rel, &resolved));
    let again = p.open_document(&rel, &resolved, Some("changed".to_string())).unwrap().to_text();
    assert_eq!(again, "first");
}

#[test]
fn unreadable_file_is_an_io_error() {
    let mut p = Project::from(parts("/srv/proj"));
    let rel = "gone.txt".to_string();
    let resolved = Some(parts("/srv/proj/gone.txt"));
    assert!(matches!(p.open_document(&rel, &resolved, None), Err(ProjectError::Io)));
    assert!(p.needs_read(&rel, &resolved));
}

#[test]
fn registration_is_idempotent() {
    let mut s = Server::new(Project::from(parts("/srv/proj")));
    assert_eq!(s.register_client(addr(1)), (0, true));
    assert_eq!(s.register_client(addr(2)), (1, true));
    assert_eq!(s.register_client(addr(1)), (0, false));
    assert_eq!(s.get_client(addr(2)), Ok(1));
    assert_eq!(s.get_client(addr(3)), Err(ProjectError::UnknownConnection));
    assert_eq!(s.recipients(addr(1)), vec![1]);
    assert_eq!(s.recipients(addr(3)), vec![0, 1]);
}

#[test]
fn commit_is_relayed_to_peers_only() {
    let mut s = Server::new(Project::from(parts("/srv/proj")));
    s.register_client(addr(1));
    s.register_client(addr(2));
    s.register_client(addr(3));
    let c = commit("a.txt", vec![(0, "X")], vec![0..1]);
    let req = Request::Update(Update::Commit(c));
    let reply = s.handle_request(addr(2), req, file("/srv/proj/a.txt", Some("hello"))).unwrap();
    assert!(matches!(reply.response, Response::Acknowledge));
    let (note, targets) = reply.broadcast.unwrap();
    assert_eq!(targets, vec![0, 2]);
    let Notification::Commit(sent) = note;
    assert_eq!(sent.document_path, "a.txt");
    assert_eq!(sent.insertions, vec![(0, "X".to_string())]);
    assert_eq!(sent.deletions, vec![0..1]);
    let fetch = Request::Fetch(Fetch::Document("a.txt".to_string()));
    let reply = s.handle_request(addr(1), fetch, file("/srv/proj/a.txt", None)).unwrap();
    match reply.response {
        Response::Document(d) => assert_eq!(d.to_text(), "Xello"),
        _ => panic!("expected a document"),
    }
    assert!(reply.broadcast.is_none());
}

#[test]
fn commits_apply_in_submission_order() {
    let mut s = Server::new(Project::from(parts("/srv/proj")));
    s.register_client(addr(1));
    s.register_client(addr(2));
    let first = Request::Update(Update::Commit(commit("a.txt", vec![(3, "d")], vec![])));
    let second = Request::Update(Update::Commit(commit("a.txt", vec![(0, "z")], vec![0..1])));
    assert!(s.handle_request(addr(1), first, file("/srv/proj/a.txt", Some("abc"))).is_ok());
    assert!(s.handle_request(addr(2), second, file("/srv/proj/a.txt", None)).is_ok());
    let fetch = Request::Fetch(Fetch::Document("a.txt".to_string()));
    match s.handle_request(addr(1), fetch, file("/srv/proj/a.txt", None)).unwrap().response {
        Response::Document(d) => assert_eq!(d.to_text(), "zbcd"),
        _ => panic!("expected a document"),
    }
}

#[test]
fn failed_commits_are_not_relayed() {
    let mut s = Server::new(Project::from(parts("/srv/proj")));
    s.register_client(addr(1));
    s.register_client(addr(2));
    let bad_index = Request::Update(Update::Commit(commit("a.txt", vec![(9, "!")], vec![])));
    let r = s.handle_request(addr(1), bad_index, file("/srv/proj/a.txt", Some("abc")));
    assert!(matches!(r, Err(ProjectError::IndexOutOfRange)));
    let dup = Request::Update(Update::Commit(commit("a.txt", vec![(0, "a"), (0, "b")], vec![])));
    let r = s.handle_request(addr(1), dup, file("/srv/proj/a.txt", None));
    assert!(matches!(r, Err(ProjectError::Malformed)));
    let escape = Request::Update(Update::Commit(commit("../x", vec![], vec![])));
    let r = s.handle_request(addr(1), escape, file("/srv/x", Some("x")));
    assert!(matches!(r, Err(ProjectError::OutOfBounds)));
    let tree = Request::Fetch(Fetch::ProjectTree);
    assert!(matches!(s.handle_request(addr(1), tree, Disk::Unreadable), Err(ProjectError::Io)));
}

#[test]
fn tree_covers_nested_directories() {
    let mut b = TreeBuilder::new("/p".to_string());
    let mut listed = Vec::new();
    while let Some((dir, idx)) = b.next_directory() {
        let entries: Vec<Entry> = match dir.as_str() {
            "/p" => vec![
                Entry { path: "/p/a.txt".to_string(), is_dir: false },
                Entry { path: "/p/sub".to_string(), is_dir: true },
            ],
            "/p/sub" => vec![
                Entry { path: "/p/sub/b.txt".to_string(), is_dir: false },
                Entry { path: "/p/sub/deep".to_string(), is_dir: true },
            ],
            "/p/sub/deep" => vec![Entry { path: "/p/sub/deep/c.txt".to_string(), is_dir: false }],
            _ => panic!("unexpected directory"),
        };
        listed.push(dir);
        assert!(b.add_entries(idx, &entries));
    }
    assert_eq!(listed, vec!["/p", "/p/sub", "/p/sub/deep"]);
    assert!(!b.add_entries(99, &vec![]));
    let t = b.finish();
    let nodes: Vec<String> = t.0.node_indices().map(|i| t.0[i].clone()).collect();
    assert_eq!(
        nodes,
        vec!["/p", "/p/a.txt", "/p/sub", "/p/sub/b.txt", "/p/sub/deep", "/p/sub/deep/c.txt"]
    );
    let mut edges: Vec<(String, String)> = t
        .0
        .edge_indices()
        .map(|e| {
            let (a, c) = t.0.edge_endpoints(e).unwrap();
            (t.0[a].clone(), t.0[c].clone())
        })
        .collect();
    edges.sort();
    let expected: Vec<(String, String)> = vec![
        ("/p", "/p/a.txt"),
        ("/p", "/p/sub"),
        ("/p/sub", "/p/sub/b.txt"),
        ("/p/sub", "/p/sub/deep"),
        ("/p/sub/deep", "/p/sub/deep/c.txt"),
    ]
    .into_iter()
    .map(|(a, c)| (a.to_string(), c.to_string()))
    .collect();
    assert_eq!(edges, expected);
}

#[test]
fn error_messages_name_the_problem() {
    assert_eq!(
        ProjectError::OutOfBounds.message(),
        "Object requested by client is out of the project's bounds"
    );
    assert!(ProjectError::UnknownConnection.message().contains("registered"));
}
