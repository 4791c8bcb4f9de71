use p2p_chat::config::StartupConfig;
use p2p_chat::message::{AppEvent, Presence, UiCommand};
use p2p_chat::peer::PeerKey;
use p2p_chat::ui::app::{clock_time, short_id, App, Screen, Who};
use p2p_chat::ui::events::{handle_key, Key, KeyAction, KeyContext, KeyPress};
use p2p_chat::ui::files::RawEntry;

fn startup(interactive: bool) -> StartupConfig {
    StartupConfig { interactive, nick: "alice".into(), port: 0, dial: String::new(), remember: false }
}

fn peer(n: u8) -> PeerKey {
    PeerKey { bytes: vec![n; 4], text: format!("12D3KooWpeer00{n}") }
}

fn ctx() -> KeyContext {
    KeyContext { now: "12:00".into(), fallback_nick: "sys".into(), home: Some("/home/u".into()) }
}

fn key(code: Key) -> KeyPress {
    KeyPress { code, ctrl: false }
}

fn ctrl(c: char) -> KeyPress {
    KeyPress { code: Key::Char(c), ctrl: true }
}

fn type_text(app: &mut App, text: &str) {
    for c in text.chars() {
        assert!(handle_key(app, key(Key::Char(c)), &ctx()).is_none());
    }
}

fn chat_with_peer() -> App {
    let mut app = App::new("fp".into(), startup(false));
    app.apply(
        AppEvent::PeerDiscovered { peer: peer(1), nick: "bob".into(), fingerprint: "abcd".into() },
        "11:59".into(),
    );
    app
}

#[test]
fn start_screen_and_chat_screen() {
    let app = App::new("fp".into(), startup(true));
    assert_eq!(app.screen, Screen::Setup);
    assert_eq!(app.status, "настройте узел и нажмите Enter");
    let app = App::new("fp".into(), startup(false));
    assert_eq!(app.screen, Screen::Chat);
    assert_eq!(app.status, "ожидание пиров…");
    let app = App::new("fp".into(), StartupConfig { port: 4001, ..startup(true) });
    assert_eq!(app.setup.port, "4001");
}

#[test]
fn setup_form_submits_start() {
    let mut app = App::new("fp".into(), startup(true));
    // nick field: clear and type
    for _ in 0..5 {
        handle_key(&mut app, key(Key::Backspace), &ctx());
    }
    type_text(&mut app, "  carol ");
    handle_key(&mut app, key(Key::Tab), &ctx());
    type_text(&mut app, "4x0");
    assert_eq!(app.setup.port, "40");
    handle_key(&mut app, key(Key::Tab), &ctx());
    type_text(&mut app, " 10.0.0.2:4001 ");
    handle_key(&mut app, key(Key::Tab), &ctx());
    handle_key(&mut app, key(Key::Char(' ')), &ctx());
    assert!(app.setup.remember);
    match handle_key(&mut app, key(Key::Enter), &ctx()) {
        Some(KeyAction::Launch(l)) => {
            match l.command {
                UiCommand::Start { nick, port, dials } => {
                    assert_eq!(nick, "carol");
                    assert_eq!(port, 40);
                    assert_eq!(dials, vec!["10.0.0.2:4001".to_string()]);
                }
                _ => panic!("expected Start"),
            }
            let save = l.save.unwrap();
            assert_eq!(save.nick, Some("carol".to_string()));
            assert!(save.remember);
        }
        _ => panic!("expected a launch"),
    }
    assert_eq!(app.screen, Screen::Chat);
    assert_eq!(app.me_nick, "carol");
}

#[test]
fn setup_rejects_bad_port_and_uses_fallback_nick() {
    let mut app = App::new("fp".into(), StartupConfig { nick: String::new(), ..startup(true) });
    handle_key(&mut app, key(Key::BackTab), &ctx());
    handle_key(&mut app, key(Key::BackTab), &ctx());
    handle_key(&mut app, key(Key::BackTab), &ctx());
    assert_eq!(app.setup.field, 1);
    type_text(&mut app, "99999");
    assert!(handle_key(&mut app, key(Key::Enter), &ctx()).is_none());
    assert_eq!(app.setup.error, Some("порт должен быть числом 0–65535".to_string()));
    assert_eq!(app.screen, Screen::Setup);
    handle_key(&mut app, key(Key::Backspace), &ctx());
    match handle_key(&mut app, key(Key::Enter), &ctx()) {
        Some(KeyAction::Launch(l)) => {
            assert!(matches!(l.command, UiCommand::Start { ref nick, port: 9999, .. } if nick == "sys"));
            assert!(l.save.is_none());
        }
        _ => panic!("expected a launch"),
    }
}

#[test]
fn escape_quits() {
    let mut app = App::new("fp".into(), startup(true));
    assert!(matches!(handle_key(&mut app, key(Key::Esc), &ctx()), Some(KeyAction::Command(UiCommand::Quit))));
    assert!(app.should_quit);
    let mut app = chat_with_peer();
    assert!(matches!(handle_key(&mut app, ctrl('c'), &ctx()), Some(KeyAction::Command(UiCommand::Quit))));
}

#[test]
fn text_goes_to_selected_peer() {
    let mut app = chat_with_peer();
    type_text(&mut app, "  hi there ");
    match handle_key(&mut app, key(Key::Enter), &ctx()) {
        Some(KeyAction::Command(UiCommand::SendText { peer: p, text })) => {
            assert_eq!(p.bytes, peer(1).bytes);
            assert_eq!(text, "hi there");
        }
        _ => panic!("expected SendText"),
    }
    assert_eq!(app.input, "");
    let last = app.peers[0].messages.last().unwrap();
    assert_eq!(last.who, Who::Me);
    assert_eq!(last.text, "hi there");
    assert_eq!(last.time, "12:00");
}

#[test]
fn commands_in_the_input() {
    let mut app = chat_with_peer();
    type_text(&mut app, "/dial  1.2.3.4:5 ");
    assert!(matches!(handle_key(&mut app, key(Key::Enter), &ctx()),
        Some(KeyAction::Command(UiCommand::Dial { ref addr })) if addr == "1.2.3.4:5"));
    type_text(&mut app, "/file ~/a b.txt");
    match handle_key(&mut app, key(Key::Enter), &ctx()) {
        Some(KeyAction::Command(UiCommand::SendFile { path, .. })) => assert_eq!(path, "/home/u/a b.txt"),
        _ => panic!("expected SendFile"),
    }
    assert_eq!(app.peers[0].messages.last().unwrap().text, "отправка файла /home/u/a b.txt…");
    type_text(&mut app, "/verify");
    assert!(matches!(handle_key(&mut app, key(Key::Enter), &ctx()),
        Some(KeyAction::Command(UiCommand::VerifyPeer { .. }))));
    assert!(app.peers[0].verified);
    type_text(&mut app, "   ");
    assert!(handle_key(&mut app, key(Key::Enter), &ctx()).is_none());
}

#[test]
fn no_peer_messages() {
    let mut app = App::new("fp".into(), startup(false));
    type_text(&mut app, "hello");
    assert!(handle_key(&mut app, key(Key::Enter), &ctx()).is_none());
    assert_eq!(app.status, "нет выбранного пира — некому отправить");
    type_text(&mut app, "/file x");
    assert!(handle_key(&mut app, key(Key::Enter), &ctx()).is_none());
    assert_eq!(app.status, "нет выбранного пира для файла");
    app.status.clear();
    assert!(handle_key(&mut app, ctrl('f'), &ctx()).is_none());
    assert_eq!(app.status, "нет выбранного пира для файла");
    assert!(handle_key(&mut app, ctrl('v'), &ctx()).is_none());
}

#[test]
fn help_overlay_and_scrolling() {
    let mut app = chat_with_peer();
    handle_key(&mut app, key(Key::Char('?')), &ctx());
    assert!(app.show_help);
    handle_key(&mut app, key(Key::Char('x')), &ctx());
    assert!(!app.show_help);
    assert_eq!(app.input, "");
    handle_key(&mut app, key(Key::F(1)), &ctx());
    assert!(app.show_help);
    handle_key(&mut app, key(Key::Enter), &ctx());
    assert!(!app.show_help);
    handle_key(&mut app, key(Key::PageUp), &ctx());
    handle_key(&mut app, key(Key::PageUp), &ctx());
    assert_eq!(app.scroll, 6);
    handle_key(&mut app, key(Key::PageDown), &ctx());
    assert_eq!(app.scroll, 3);
    type_text(&mut app, "a?");
    assert_eq!(app.input, "a?");
    assert!(matches!(handle_key(&mut app, ctrl('r'), &ctx()), Some(KeyAction::Command(UiCommand::RefreshDiscovery))));
}

#[test]
fn selection_cycles() {
    let mut app = chat_with_peer();
    app.apply(AppEvent::PeerPresence { peer: peer(2), presence: Presence::Online }, "t".into());
    app.apply(AppEvent::MessageReceived { peer: peer(3), text: "yo".into() }, "t".into());
    assert_eq!(app.peers.len(), 3);
    assert_eq!(app.peers[1].nick, short_id("12D3KooWpeer002"));
    assert!(app.peers[1].online);
    handle_key(&mut app, key(Key::Up), &ctx());
    assert_eq!(app.selected, 2);
    handle_key(&mut app, key(Key::Tab), &ctx());
    assert_eq!(app.selected, 0);
    handle_key(&mut app, key(Key::Down), &ctx());
    handle_key(&mut app, key(Key::Up), &ctx());
    assert_eq!(app.selected, 0);
}

#[test]
fn events_update_the_interface() {
    let mut app = chat_with_peer();
    app.apply(AppEvent::Listening { addr: "/ip4/1.2.3.4/udp/1/quic-v1".into() }, "t".into());
    app.apply(AppEvent::Listening { addr: "/ip4/1.2.3.4/udp/1/quic-v1".into() }, "t".into());
    assert_eq!(app.listen_addrs.len(), 1);
    app.apply(AppEvent::PeerDiscovered { peer: peer(1), nick: "bobby".into(), fingerprint: "ffff".into() }, "t".into());
    assert_eq!(app.peers.len(), 1);
    assert_eq!(app.peers[0].nick, "bobby");
    app.apply(AppEvent::Status("ok".into()), "t".into());
    assert_eq!(app.status, "ok");
    app.apply(
        AppEvent::FileProgress { peer: peer(1), name: "a.bin".into(), received: 5, total: 10, done: None, outgoing: false },
        "t".into(),
    );
    assert_eq!(app.peers[0].messages.last().unwrap().text, "\u{f0c6} приём «a.bin»: 5/10 Б");
    app.apply(
        AppEvent::FileProgress { peer: peer(1), name: "a.bin".into(), received: 10, total: 10, done: Some("/d/a.bin".into()), outgoing: false },
        "t".into(),
    );
    assert_eq!(app.peers[0].messages.last().unwrap().text, "\u{f0c6} получен файл «a.bin» → /d/a.bin");
    app.apply(
        AppEvent::FileProgress { peer: peer(1), name: "b".into(), received: 3, total: 3, done: None, outgoing: true },
        "t".into(),
    );
    assert_eq!(app.peers[0].messages.last().unwrap().text, "\u{f0c6} отправлен файл «b» (3 Б)");
}

#[test]
fn short_ids() {
    assert_eq!(short_id("12D3KooWABCDEFGHIJ"), "peer-CDEFGHIJ");
    assert_eq!(short_id("abc"), "peer-abc");
}

fn file(name: &str) -> RawEntry {
    RawEntry { name: name.into(), path: format!("/home/u/{name}"), is_link: false, is_dir: false, is_exec: false }
}

#[test]
fn file_browser_keys() {
    let mut app = chat_with_peer();
    assert!(matches!(handle_key(&mut app, ctrl('f'), &ctx()), Some(KeyAction::OpenBrowser)));
    let dir = RawEntry { name: "docs".into(), path: "/home/u/docs".into(), is_link: false, is_dir: true, is_exec: false };
    app.open_file_browser("/home/u".into(), Ok(vec![file("a.txt"), dir]));
    assert!(app.file_browser.is_some());
    match handle_key(&mut app, key(Key::Enter), &ctx()) {
        Some(KeyAction::ListDir(d)) => assert_eq!(d, "/home/u/docs"),
        _ => panic!("expected a directory to list"),
    }
    app.browser_listing(Ok(vec![file("deep.txt")]));
    assert_eq!(app.file_browser.as_ref().unwrap().entries[0].name, "deep.txt");
    match handle_key(&mut app, key(Key::Backspace), &ctx()) {
        Some(KeyAction::ListDir(d)) => assert_eq!(d, "/home/u"),
        _ => panic!("expected the parent to list"),
    }
    app.browser_listing(Ok(vec![file("a.txt"), RawEntry { name: "docs".into(), path: "/home/u/docs".into(), is_link: false, is_dir: true, is_exec: false }]));
    assert_eq!(app.file_browser.as_ref().unwrap().selected, 0);
    handle_key(&mut app, key(Key::Down), &ctx());
    match handle_key(&mut app, key(Key::Enter), &ctx()) {
        Some(KeyAction::Command(UiCommand::SendFile { path, .. })) => assert_eq!(path, "/home/u/a.txt"),
        _ => panic!("expected SendFile"),
    }
    assert!(app.file_browser.is_none());
    assert_eq!(app.peers[0].messages.last().unwrap().text, "отправка файла /home/u/a.txt…");
    handle_key(&mut app, ctrl('f'), &ctx());
    app.open_file_browser("/".into(), Err("denied".into()));
    assert!(handle_key(&mut app, key(Key::Esc), &ctx()).is_none());
    assert!(app.file_browser.is_none());
    assert!(!app.should_quit);
}

#[test]
fn help_overlay_takes_keys_before_the_browser() {
    let mut app = chat_with_peer();
    app.open_file_browser("/home/u".into(), Ok(vec![file("a.txt"), file("b.txt")]));
    app.show_help = true;
    assert!(handle_key(&mut app, key(Key::Down), &ctx()).is_none());
    assert!(!app.show_help);
    assert_eq!(app.file_browser.as_ref().unwrap().selected, 0);
    assert!(handle_key(&mut app, key(Key::Esc), &ctx()).is_none());
    assert!(app.file_browser.is_none());
    app.show_help = true;
    assert!(matches!(handle_key(&mut app, ctrl('c'), &ctx()), Some(KeyAction::Command(UiCommand::Quit))));
    assert!(app.should_quit);
}

#[test]
fn clock_time_is_hours_and_minutes() {
    let t = clock_time();
    let c: Vec<char> = t.chars().collect();
    assert_eq!(c.len(), 5);
    assert_eq!(c[2], ':');
    let h: u32 = t[0..2].parse().unwrap();
    let m: u32 = t[3..5].parse().unwrap();
    assert!(h < 24 && m < 60);
    assert!(c.iter().enumerate().all(|(i, ch)| i == 2 || ch.is_ascii_digit()));
}
