use p2p_chat::config::StartupConfig;
use p2p_chat::message::{AppEvent, Presence};
use p2p_chat::peer::PeerKey;
use p2p_chat::ui::app::App;
use p2p_chat::ui::files::{FileBrowser, RawEntry};
use p2p_chat::ui::view::{
    centered_rect, chat_title, chat_window, cursor_column, help_rows, Area, Overlay, Piece, Tone,
};

fn text_of(line: &[Piece]) -> String {
    line.iter().map(|p| p.text.as_str()).collect()
}

fn app_with_peer() -> App {
    let mut app = App::new(
        "fp1".into(),
        StartupConfig { interactive: false, nick: "alice".into(), port: 0, dial: String::new(), remember: false },
    );
    let peer = PeerKey { bytes: vec![7], text: "12D3KooWbob".into() };
    app.apply(AppEvent::PeerDiscovered { peer: PeerKey { bytes: vec![7], text: "12D3KooWbob".into() }, nick: "bob".into(), fingerprint: "ab cd".into() }, "t".into());
    app.apply(AppEvent::PeerPresence { peer, presence: Presence::Online }, "t".into());
    app
}

#[test]
fn centered_boxes() {
    let area = Area { x: 0, y: 0, width: 100, height: 40 };
    assert_eq!(centered_rect(54, 16, area), Area { x: 23, y: 12, width: 54, height: 16 });
    let small = Area { x: 5, y: 5, width: 30, height: 10 };
    assert_eq!(centered_rect(54, 16, small), small);
}

#[test]
fn chat_window_follows_the_bottom() {
    assert_eq!(chat_window(100, 12, 0), (90, false));
    assert_eq!(chat_window(100, 12, 5), (85, true));
    assert_eq!(chat_window(100, 12, 500), (0, true));
    assert_eq!(chat_window(5, 12, 3), (0, false));
    assert_eq!(chat_window(5, 2, 0), (4, false));
    assert_eq!(chat_title(true), "чат [↑]");
    assert_eq!(chat_title(false), "чат");
}

#[test]
fn cursor_stays_in_the_box() {
    assert_eq!(cursor_column(10, 40, 3), 14);
    assert_eq!(cursor_column(10, 40, 100), 48);
}

#[test]
fn peer_list_and_header() {
    let app = app_with_peer();
    let rows = app.peer_rows();
    assert_eq!(rows.len(), 1);
    assert_eq!(rows[0][0].tone, Tone::Online);
    assert_eq!(rows[0][1].text, "bob");
    assert!(rows[0][1].highlight);
    assert_eq!(app.peers_title(), "пиры (1)");
    assert_eq!(app.header_title(), "alice · fp fp1");
    assert_eq!(text_of(&app.header_line()), "bob  не сверен  fp ab cd");
}

#[test]
fn chat_lines_and_status() {
    let mut app = app_with_peer();
    app.apply(AppEvent::MessageReceived { peer: PeerKey { bytes: vec![7], text: "x".into() }, text: "hi".into() }, "10:01".into());
    let rows = app.chat_rows();
    assert_eq!(text_of(&rows[0]), "10:01 < hi");
    let empty = App::new(
        "fp".into(),
        StartupConfig { interactive: false, nick: "a".into(), port: 0, dial: String::new(), remember: false },
    );
    assert_eq!(
        text_of(&empty.chat_rows()[0]),
        "Ждём пиров. Они появятся автоматически (mDNS) или после /dial <адрес>."
    );
    assert_eq!(
        text_of(&empty.status_line()),
        "Tab пир · ^V сверить · ^F файл · PgUp/Dn скролл · ? помощь  ожидание пиров…"
    );
    app.apply(AppEvent::Listening { addr: "/ip4/1.1.1.1/tcp/1".into() }, "t".into());
    assert!(text_of(&app.status_line()).ends_with("  /ip4/1.1.1.1/tcp/1"));
}

#[test]
fn start_form_lines() {
    let app = App::new(
        "fp9".into(),
        StartupConfig { interactive: true, nick: String::new(), port: 0, dial: String::new(), remember: true },
    );
    let rows = app.setup_rows();
    assert_eq!(rows.len(), 10);
    assert_eq!(text_of(&rows[0]), "l0kus");
    assert_eq!(text_of(&rows[2]), "fp fp9");
    assert_eq!(text_of(&rows[4]), "> Ник    [ имя пользователя ОС_ ]");
    assert_eq!(text_of(&rows[5]), "  Порт   [ случайный ]");
    assert_eq!(text_of(&rows[7]), "  [x] Запоминать настройки");
    assert_eq!(app.overlay(), Overlay::Setup);
}

#[test]
fn browser_panel() {
    let entries: Vec<RawEntry> = (0..30)
        .map(|i| RawEntry { name: format!("f{i:02}"), path: format!("/d/f{i:02}"), is_link: false, is_dir: false, is_exec: false })
        .collect();
    let mut b = FileBrowser::open(PeerKey { bytes: vec![1], text: "p".into() }, "/d".into(), Ok(entries));
    for _ in 0..20 {
        b.down();
    }
    assert_eq!(b.window_start(10), 15);
    let rows = b.rows(10);
    assert_eq!(rows.len(), 10);
    assert_eq!(text_of(&rows[5]), "> \u{f15b}  f20");
    assert_eq!(b.title(), "выбор файла · /d");
    let empty = FileBrowser::open(PeerKey { bytes: vec![1], text: "p".into() }, "/e".into(), Ok(Vec::new()));
    assert_eq!(text_of(&empty.rows(10)[0]), "\u{f071} (пусто)");
}

#[test]
fn help_lists_the_keys() {
    let rows = help_rows();
    assert_eq!(rows.len(), 12);
    assert_eq!(rows[0][0].text, "Enter         ");
    assert_eq!(rows[3][0].text, "Ctrl+F        ");
    assert_eq!(text_of(&rows[11]), "любая клавиша — закрыть");
}
