use p2p_chat::peer::PeerKey;
use p2p_chat::ui::files::{arrange, BrowseStep, EntryKind, FileBrowser, RawEntry};

fn raw(name: &str, dir: bool) -> RawEntry {
    RawEntry {
        name: name.into(),
        path: format!("/home/u/{name}"),
        is_link: false,
        is_dir: dir,
        is_exec: false,
    }
}

fn peer() -> PeerKey {
    PeerKey { bytes: vec![1, 2, 3], text: "12D3KooWpeer".into() }
}

fn names(b: &FileBrowser) -> Vec<String> {
    b.entries.iter().map(|e| e.name.clone()).collect()
}

#[test]
fn listing_order_dirs_first_case_insensitive() {
    let list = vec![
        raw("zeta.txt", false),
        raw("Beta", true),
        raw(".hidden", false),
        raw("alpha.txt", false),
        raw("Alpha", true),
        raw("Bravo.txt", false),
    ];
    let out = arrange(list);
    let n: Vec<&str> = out.iter().map(|e| e.name.as_str()).collect();
    assert_eq!(n, vec!["Alpha", "Beta", "alpha.txt", "Bravo.txt", "zeta.txt"]);
    assert_eq!(out[0].kind, EntryKind::Dir);
}

#[test]
fn entry_kinds() {
    let list = vec![
        RawEntry { name: "l".into(), path: "/l".into(), is_link: true, is_dir: true, is_exec: false },
        RawEntry { name: "x".into(), path: "/x".into(), is_link: false, is_dir: false, is_exec: true },
        RawEntry { name: "f".into(), path: "/f".into(), is_link: false, is_dir: false, is_exec: false },
    ];
    let out = arrange(list);
    assert_eq!(out[0].kind, EntryKind::Link);
    assert!(out[0].is_dir);
    assert_eq!(out[1].kind, EntryKind::File);
    assert_eq!(out[2].kind, EntryKind::Exec);
}

#[test]
fn browse_enter_and_back() {
    let mut b = FileBrowser::open(peer(), "/home/u".into(), Ok(vec![raw("a.txt", false), raw("docs", true)]));
    assert_eq!(names(&b), vec!["docs", "a.txt"]);
    assert_eq!(b.selected, 0);
    b.up();
    assert_eq!(b.selected, 0);
    b.down();
    b.down();
    assert_eq!(b.selected, 1);
    match b.activate() {
        Some(BrowseStep::Send(p)) => assert_eq!(p, "/home/u/a.txt"),
        _ => panic!("expected a file to send"),
    }
    b.up();
    match b.activate() {
        Some(BrowseStep::Enter(p)) => assert_eq!(p, "/home/u/docs"),
        _ => panic!("expected a directory"),
    }
    assert_eq!(b.cwd, "/home/u/docs");
    b.load(Ok(vec![raw("inner", false)]));
    assert_eq!(names(&b), vec!["inner"]);
    assert_eq!(b.parent(), Some("/home/u".to_string()));
    b.load(Ok(vec![raw("a.txt", false), raw("b", true), raw("docs", true)]));
    assert_eq!(b.selected, 1);
    assert_eq!(b.entries[b.selected].name, "docs");
}

#[test]
fn unreadable_directory() {
    let b = FileBrowser::open(peer(), "/root".into(), Err("Permission denied".into()));
    assert!(b.entries.is_empty());
    assert_eq!(b.error, Some("/root: Permission denied".to_string()));
    let mut b = FileBrowser::open(peer(), "/".into(), Ok(Vec::new()));
    assert_eq!(b.parent(), None);
    assert!(b.activate().is_none());
}
