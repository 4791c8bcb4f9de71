use p2p_chat::headless::{handle_event, handle_line, ready_line};
use p2p_chat::message::{AppEvent, Presence, UiCommand};
use p2p_chat::peer::PeerKey;

fn peer(n: u8) -> PeerKey {
    PeerKey { bytes: vec![n; 3], text: format!("P{n}") }
}

#[test]
fn lines_to_commands() {
    let none: Vec<PeerKey> = Vec::new();
    let s = handle_line("   ", &none);
    assert!(s.command.is_none() && s.output.is_none() && s.go_on);
    let s = handle_line(" /quit ", &none);
    assert!(!s.go_on);
    let s = handle_line("/dial 1.2.3.4:5", &none);
    assert!(matches!(s.command, Some(UiCommand::Dial { ref addr }) if addr == "1.2.3.4:5"));
    let s = handle_line("/refresh", &none);
    assert!(matches!(s.command, Some(UiCommand::RefreshDiscovery)));
    let s = handle_line("hello", &none);
    assert!(s.command.is_none());
    assert_eq!(s.output, Some("STATUS нет пиров для отправки".to_string()));

    let peers = vec![peer(1), peer(2)];
    let s = handle_line("hello there", &peers);
    assert!(matches!(s.command, Some(UiCommand::SendText { ref peer, ref text }) if peer.text == "P1" && text == "hello there"));
    let s = handle_line("/verify", &peers);
    assert!(matches!(s.command, Some(UiCommand::VerifyPeer { ref peer }) if peer.text == "P1"));
    let s = handle_line("/file  /tmp/x.bin ", &peers);
    assert!(matches!(s.command, Some(UiCommand::SendFile { ref path, .. }) if path == "/tmp/x.bin"));
}

#[test]
fn events_to_lines() {
    let mut peers = Vec::new();
    let mut names: Vec<(PeerKey, String)> = Vec::new();
    assert_eq!(ready_line("alice", "ab cd"), "READY alice ab cd");
    assert_eq!(handle_event(AppEvent::Listening { addr: "/ip4/1".into() }, &mut peers, &mut names), "LISTEN /ip4/1");
    assert_eq!(
        handle_event(AppEvent::PeerDiscovered { peer: peer(1), nick: "bob".into(), fingerprint: "f f".into() }, &mut peers, &mut names),
        "PEER P1 bob f f"
    );
    handle_event(AppEvent::PeerDiscovered { peer: peer(1), nick: "bob2".into(), fingerprint: "f".into() }, &mut peers, &mut names);
    handle_event(AppEvent::PeerDiscovered { peer: peer(2), nick: "eve".into(), fingerprint: "g".into() }, &mut peers, &mut names);
    assert_eq!(peers.len(), 2);
    assert_eq!(peers[0].text, "P1");
    assert_eq!(
        handle_event(AppEvent::PeerPresence { peer: peer(2), presence: Presence::Offline }, &mut peers, &mut names),
        "PRESENCE P2 offline"
    );
    assert_eq!(handle_event(AppEvent::MessageReceived { peer: peer(1), text: "hi".into() }, &mut peers, &mut names), "MSG P1 hi");
    assert_eq!(
        handle_event(AppEvent::FileProgress { peer: peer(1), name: "a".into(), received: 2, total: 9, done: None, outgoing: false }, &mut peers, &mut names),
        "FILE P1 recv 2/9 a"
    );
    assert_eq!(
        handle_event(AppEvent::FileProgress { peer: peer(1), name: "a".into(), received: 9, total: 9, done: Some("/d/a".into()), outgoing: false }, &mut peers, &mut names),
        "FILE P1 recv-done /d/a a"
    );
    assert_eq!(
        handle_event(AppEvent::FileProgress { peer: peer(1), name: "b".into(), received: 1, total: 1, done: None, outgoing: true }, &mut peers, &mut names),
        "FILE P1 sent b"
    );
    assert_eq!(handle_event(AppEvent::Status("ok".into()), &mut peers, &mut names), "STATUS ok");
    assert_eq!(peers.len(), 2);
    assert_eq!(names.len(), 2);
    assert_eq!(names[0].0.text, "P1");
    assert_eq!(names[0].1, "bob2");
    assert_eq!(names[1].0.text, "P2");
    assert_eq!(names[1].1, "eve");
}
