//! Keys to engine commands, and the edits of the input state they make.
use vstd::prelude::*;
use crate::message::{UiCommand, CommandView};
use crate::config::SettingsView;
use crate::ui::app::{
    App, AppView, Screen, SetupView, Field, PeerEntryView, LineView, Who, Launched, app_wf,
    field_at, input_char_spec, backspace_spec, drop_last_char, submit_setup_spec,
    pushed_to_selected, no_peer_for_file_text,
};
use crate::ui::files::{BrowserView, BrowseStep, path_parent};
use crate::file_transfer::path_file_name;
use crate::text::{
    trim, strip_prefix, chars_of, string_of, trimmed, strip_prefix_chars, chars_eq, push_char,
    pop_char,
};

verus! {

broadcast use vstd::string::group_string_axioms;

/// A key, as far as the interface tells keys apart.
#[derive(PartialEq, Eq, Structural, Clone, Copy, Debug)]
pub enum Key {
    Char(char),
    Enter,
    Esc,
    Tab,
    BackTab,
    Up,
    Down,
    Backspace,
    PageUp,
    PageDown,
    /// A function key, by its number.
    F(u8),
    Other,
}

/// A key press, and whether Ctrl was held.
#[derive(PartialEq, Eq, Structural, Clone, Copy, Debug)]
pub struct KeyPress {
    pub code: Key,
    pub ctrl: bool,
}

/// What handling a key needs from around it.
pub struct KeyContext {
    /// The local time `HH:MM`, for new chat lines.
    pub now: String,
    /// The nickname when the start form leaves it empty (the system user name).
    pub fallback_nick: String,
    /// The home directory, for `~/` at the start of a path.
    pub home: Option<String>,
}

/// The context as values.
pub struct ContextView {
    pub now: Seq<char>,
    pub fallback_nick: Seq<char>,
    pub home: Option<Seq<char>>,
}

impl View for KeyContext {
    type V = ContextView;

    open spec fn view(&self) -> ContextView {
        ContextView {
            now: self.now@,
            fallback_nick: self.fallback_nick@,
            home: match self.home {
                Some(h) => Some(h@),
                None => None,
            },
        }
    }
}

/// What the caller is to do after a key.
pub enum KeyAction {
    /// Hand the command to the engine.
    Command(UiCommand),
    /// Save the settings, if any, then hand the start command to the engine.
    Launch(Launched),
    /// List the start directory of the file browser and hand it to
    /// `App::open_file_browser`.
    OpenBrowser,
    /// List this directory and hand it to `App::browser_listing`.
    ListDir(String),
}

/// An action as values.
pub enum ActionView {
    Command(CommandView),
    Launch(CommandView, Option<SettingsView>),
    OpenBrowser,
    ListDir(Seq<char>),
}

impl View for KeyAction {
    type V = ActionView;

    open spec fn view(&self) -> ActionView {
        match self {
            KeyAction::Command(c) => ActionView::Command(c@),
            KeyAction::Launch(l) => ActionView::Launch(
                l.command@,
                match l.save {
                    Some(st) => Some(st@),
                    None => None,
                },
            ),
            KeyAction::OpenBrowser => ActionView::OpenBrowser,
            KeyAction::ListDir(d) => ActionView::ListDir(d@),
        }
    }
}

/// An optional action as values.
pub open spec fn action_view(r: Option<KeyAction>) -> Option<ActionView> {
    match r {
        Some(k) => Some(k@),
        None => None,
    }
}

/// Leaving: the interface is to quit and the engine to shut down.
pub open spec fn quit_spec(a: AppView) -> (AppView, Option<ActionView>) {
    (AppView { should_quit: true, ..a }, Some(ActionView::Command(CommandView::Quit)))
}

/// Ctrl+C, or a plain key.
pub open spec fn is_ctrl_char(k: KeyPress, c: char) -> bool {
    k.code == Key::Char(c) && k.ctrl
}

/// A key on the start form.
pub open spec fn setup_key_spec(a: AppView, k: KeyPress, fallback: Seq<char>) -> (
    AppView,
    Option<ActionView>,
) {
    if k.code == Key::Esc || is_ctrl_char(k, 'c') {
        quit_spec(a)
    } else if k.code == Key::Tab || k.code == Key::Down {
        (AppView { setup: SetupView { field: ((a.setup.field + 1) % 4) as usize, ..a.setup }, ..a }, None)
    } else if k.code == Key::BackTab || k.code == Key::Up {
        (AppView { setup: SetupView { field: ((a.setup.field + 3) % 4) as usize, ..a.setup }, ..a }, None)
    } else if k.code == Key::Char(' ') {
        (
            AppView {
                setup: if field_at(a.setup.field) == Field::Remember {
                    SetupView { remember: !a.setup.remember, ..a.setup }
                } else {
                    a.setup
                },
                ..a
            },
            None,
        )
    } else if k.code == Key::Enter {
        let s = submit_setup_spec(a, fallback);
        (
            s.0,
            match s.1 {
                Some((c, save)) => Some(ActionView::Launch(c, save)),
                None => None,
            },
        )
    } else if k.code == Key::Backspace {
        (AppView { setup: backspace_spec(a.setup), ..a }, None)
    } else {
        match k.code {
            Key::Char(c) => (AppView { setup: input_char_spec(a.setup, c), ..a }, None),
            _ => (a, None),
        }
    }
}

/// Marking the selected peer as compared: the interface marks it at once
/// (the engine keeps its own mark), and the engine is told.
pub open spec fn verify_spec(a: AppView) -> (AppView, Option<ActionView>) {
    if a.selected < a.peers.len() {
        let i = a.selected as int;
        (
            AppView { peers: a.peers.update(i, PeerEntryView { verified: true, ..a.peers[i] }), ..a },
            Some(ActionView::Command(CommandView::VerifyPeer { peer: a.peers[i].id })),
        )
    } else {
        (a, None)
    }
}

/// `~/` at the start of a path stands for the home directory.
pub open spec fn expand_home(path: Seq<char>, home: Option<Seq<char>>) -> Seq<char> {
    match strip_prefix(path, "~/"@) {
        Some(rest) => match home {
            Some(h) => h + "/"@ + rest,
            None => path,
        },
        None => path,
    }
}

/// The chat line when a file is being sent.
pub open spec fn sending_text(path: Seq<char>) -> Seq<char> {
    "отправка файла "@ + path + "…"@
}

/// The message when a text is to be sent and no peer is selected.
pub open spec fn no_peer_for_text() -> Seq<char> {
    "нет выбранного пира — некому отправить"@
}

/// Sending a file to the selected peer.
pub open spec fn send_file_spec(a: AppView, path: Seq<char>, ctx: ContextView) -> (
    AppView,
    Option<ActionView>,
) {
    if a.selected < a.peers.len() {
        let p = expand_home(trim(path), ctx.home);
        (
            pushed_to_selected(a, LineView { who: Who::System, text: sending_text(p), time: ctx.now }),
            Some(
                ActionView::Command(
                    CommandView::SendFile { peer: a.peers[a.selected as int].id, path: p },
                ),
            ),
        )
    } else {
        (AppView { status: no_peer_for_file_text(), ..a }, None)
    }
}

/// Sending the line as text to the selected peer.
pub open spec fn send_text_spec(a: AppView, line: Seq<char>, now: Seq<char>) -> (
    AppView,
    Option<ActionView>,
) {
    if a.selected < a.peers.len() {
        (
            pushed_to_selected(a, LineView { who: Who::Me, text: line, time: now }),
            Some(
                ActionView::Command(
                    CommandView::SendText { peer: a.peers[a.selected as int].id, text: line },
                ),
            ),
        )
    } else {
        (AppView { status: no_peer_for_text(), ..a }, None)
    }
}

/// A trimmed, non-empty input line: `/dial <address>`, `/verify`,
/// `/file <path>` or a text for the selected peer.
pub open spec fn line_spec(a: AppView, line: Seq<char>, ctx: ContextView) -> (
    AppView,
    Option<ActionView>,
) {
    match strip_prefix(line, "/dial "@) {
        Some(addr) => (a, Some(ActionView::Command(CommandView::Dial { addr: trim(addr) }))),
        None => if line == "/verify"@ {
            verify_spec(a)
        } else {
            match strip_prefix(line, "/file "@) {
                Some(path) => send_file_spec(a, path, ctx),
                None => send_text_spec(a, line, ctx.now),
            }
        },
    }
}

/// Enter on the chat screen: the input is taken and, trimmed, acted on.
pub open spec fn submit_spec(a: AppView, ctx: ContextView) -> (AppView, Option<ActionView>) {
    let a1 = AppView { input: Seq::empty(), ..a };
    let line = trim(a.input);
    if line.len() == 0 {
        (a1, None)
    } else {
        line_spec(a1, line, ctx)
    }
}

/// A key while the file browser is open: arrows move, Enter enters a
/// directory or sends the file, Backspace goes up, Esc closes it.
pub open spec fn browser_key_spec(a: AppView, b: BrowserView, k: KeyPress, now: Seq<char>) -> (
    AppView,
    Option<ActionView>,
) {
    if k.code == Key::Esc {
        (AppView { browser: None, ..a }, None)
    } else if is_ctrl_char(k, 'c') {
        quit_spec(a)
    } else if k.code == Key::Up {
        (AppView { browser: Some(BrowserView { selected: b.selected.saturating_sub(1), ..b }), ..a }, None)
    } else if k.code == Key::Down {
        (
            AppView {
                browser: Some(
                    if b.selected + 1 < b.entries.len() {
                        BrowserView { selected: (b.selected + 1) as usize, ..b }
                    } else {
                        b
                    },
                ),
                ..a
            },
            None,
        )
    } else if k.code == Key::Enter {
        if b.selected < b.entries.len() {
            let e = b.entries[b.selected as int];
            if e.is_dir {
                (
                    AppView { browser: Some(BrowserView { cwd: e.path, ..b }), ..a },
                    Some(ActionView::ListDir(e.path)),
                )
            } else {
                (
                    pushed_to_selected(
                        AppView { browser: None, ..a },
                        LineView { who: Who::System, text: sending_text(e.path), time: now },
                    ),
                    Some(ActionView::Command(CommandView::SendFile { peer: b.peer, path: e.path })),
                )
            }
        } else {
            (a, None)
        }
    } else if k.code == Key::Backspace {
        match path_parent(b.cwd) {
            Some(p) => (
                AppView {
                    browser: Some(BrowserView { cwd: p, reselect: path_file_name(b.cwd), ..b }),
                    ..a
                },
                Some(ActionView::ListDir(p)),
            ),
            None => (a, None),
        }
    } else {
        (a, None)
    }
}

/// A key on the chat screen. The help overlay, when shown, takes every key
/// and is closed by it (Ctrl+C still quits); else the file browser, when
/// open, takes the keys.
pub open spec fn chat_key_spec(a: AppView, k: KeyPress, ctx: ContextView) -> (
    AppView,
    Option<ActionView>,
) {
    if a.show_help {
        if is_ctrl_char(k, 'c') {
            quit_spec(a)
        } else {
            (AppView { show_help: false, ..a }, None)
        }
    } else {
        match a.browser {
            Some(b) => browser_key_spec(a, b, k, ctx.now),
            None => if k.code == Key::Esc || is_ctrl_char(k, 'c') {
                quit_spec(a)
            } else if is_ctrl_char(k, 'v') {
                verify_spec(a)
            } else if is_ctrl_char(k, 'f') {
                if a.selected < a.peers.len() {
                    (a, Some(ActionView::OpenBrowser))
                } else {
                    (AppView { status: no_peer_for_file_text(), ..a }, None)
                }
            } else if is_ctrl_char(k, 'r') {
                (a, Some(ActionView::Command(CommandView::RefreshDiscovery)))
            } else if k.code == Key::F(1) || (k.code == Key::Char('?') && a.input.len() == 0) {
                (AppView { show_help: true, ..a }, None)
            } else if k.code == Key::PageUp {
                (AppView { scroll: a.scroll.saturating_add(3), ..a }, None)
            } else if k.code == Key::PageDown {
                (AppView { scroll: a.scroll.saturating_sub(3), ..a }, None)
            } else if k.code == Key::Tab || k.code == Key::Down {
                if a.peers.len() > 0 {
                    (
                        AppView {
                            selected: ((a.selected + 1) % (a.peers.len() as int)) as usize,
                            scroll: 0,
                            ..a
                        },
                        None,
                    )
                } else {
                    (a, None)
                }
            } else if k.code == Key::Up {
                if a.peers.len() > 0 {
                    (
                        AppView {
                            selected: ((a.selected + a.peers.len() - 1) % (a.peers.len() as int)) as usize,
                            scroll: 0,
                            ..a
                        },
                        None,
                    )
                } else {
                    (a, None)
                }
            } else if k.code == Key::Backspace {
                (AppView { input: drop_last_char(a.input), ..a }, None)
            } else if k.code == Key::Enter {
                submit_spec(a, ctx)
            } else {
                match k.code {
                    Key::Char(c) => (AppView { input: a.input.push(c), ..a }, None),
                    _ => (a, None),
                }
            }
        }
    }
}

/// A key, by screen.
pub open spec fn handle_key_spec(a: AppView, k: KeyPress, ctx: ContextView) -> (
    AppView,
    Option<ActionView>,
) {
    match a.screen {
        Screen::Setup => setup_key_spec(a, k, ctx.fallback_nick),
        Screen::Chat => chat_key_spec(a, k, ctx),
    }
}

/// Handle a key press; the result says what the caller is to do next.
pub fn handle_key(app: &mut App, key: KeyPress, ctx: &KeyContext) -> (r: Option<KeyAction>)
    requires
        app_wf(old(app)@),
    ensures
        (final(app)@, action_view(r)) == handle_key_spec(old(app)@, key, ctx@),
        app_wf(final(app)@),
{
    match app.screen {
        Screen::Setup => handle_setup_key(app, key, ctx),
        Screen::Chat => handle_chat_key(app, key, ctx),
    }
}

fn quit(app: &mut App) -> (r: Option<KeyAction>)
    requires
        app_wf(old(app)@),
    ensures
        (final(app)@, action_view(r)) == quit_spec(old(app)@),
        app_wf(final(app)@),
{
    app.should_quit = true;
    Some(KeyAction::Command(UiCommand::Quit))
}

fn handle_setup_key(app: &mut App, key: KeyPress, ctx: &KeyContext) -> (r: Option<KeyAction>)
    requires
        app_wf(old(app)@),
        old(app)@.screen == Screen::Setup,
    ensures
        (final(app)@, action_view(r)) == setup_key_spec(old(app)@, key, ctx@.fallback_nick),
        app_wf(final(app)@),
{
    let code = key.code;
    if code == Key::Esc || (code == Key::Char('c') && key.ctrl) {
        quit(app)
    } else if code == Key::Tab || code == Key::Down {
        app.setup.next_field();
        None
    } else if code == Key::BackTab || code == Key::Up {
        app.setup.prev_field();
        None
    } else if code == Key::Char(' ') {
        app.setup.toggle();
        None
    } else if code == Key::Enter {
        match app.submit_setup(ctx.fallback_nick.clone()) {
            Some(l) => Some(KeyAction::Launch(l)),
            None => None,
        }
    } else if code == Key::Backspace {
        app.setup.backspace();
        None
    } else {
        match code {
            Key::Char(c) => {
                app.setup.input_char(c);
                None
            },
            _ => None,
        }
    }
}

fn verify_selected(app: &mut App) -> (r: Option<KeyAction>)
    requires
        app_wf(old(app)@),
    ensures
        (final(app)@, action_view(r)) == verify_spec(old(app)@),
        app_wf(final(app)@),
{
    match app.selected_peer_id() {
        Some(peer) => {
            let i = app.selected;
            let ghost ps = app@.peers;
            app.peers[i].verified = true;
            proof {
                assert(app@.peers =~= ps.update(
                    i as int,
                    PeerEntryView { verified: true, ..ps[i as int] },
                ));
            }
            Some(KeyAction::Command(UiCommand::VerifyPeer { peer }))
        },
        None => None,
    }
}

/// Put the home directory in place of `~/` at the start of the path.
fn expand_tilde(path: &[char], home: &Option<String>) -> (r: String)
    ensures
        r@ == expand_home(
            path@,
            match home {
                Some(h) => Some(h@),
                None => None,
            },
        ),
{
    let tilde = chars_of("~/");
    match strip_prefix_chars(path, tilde.as_slice()) {
        Some(rest) => match home {
            Some(h) => {
                let mut out = h.clone();
                out.append("/");
                out.append(string_of(rest.as_slice()).as_str());
                out
            },
            None => string_of(path),
        },
        None => string_of(path),
    }
}

/// The chat line when a file is being sent.
fn sending_line(path: &str) -> (r: String)
    ensures
        r@ == sending_text(path@),
{
    let mut t = "отправка файла ".to_string();
    t.append(path);
    t.append("…");
    t
}

fn send_file(app: &mut App, path: &[char], ctx: &KeyContext) -> (r: Option<KeyAction>)
    requires
        app_wf(old(app)@),
    ensures
        (final(app)@, action_view(r)) == send_file_spec(old(app)@, path@, ctx@),
        app_wf(final(app)@),
{
    match app.selected_peer_id() {
        Some(peer) => {
            let t = trimmed(path);
            let p = expand_tilde(t.as_slice(), &ctx.home);
            app.push_to_selected(Who::System, sending_line(p.as_str()), ctx.now.clone());
            Some(KeyAction::Command(UiCommand::SendFile { peer, path: p }))
        },
        None => {
            app.status = "нет выбранного пира для файла".to_string();
            None
        },
    }
}

fn send_text(app: &mut App, line: &[char], now: &String) -> (r: Option<KeyAction>)
    requires
        app_wf(old(app)@),
    ensures
        (final(app)@, action_view(r)) == send_text_spec(old(app)@, line@, now@),
        app_wf(final(app)@),
{
    match app.selected_peer_id() {
        Some(peer) => {
            app.push_to_selected(Who::Me, string_of(line), now.clone());
            Some(KeyAction::Command(UiCommand::SendText { peer, text: string_of(line) }))
        },
        None => {
            app.status = "нет выбранного пира — некому отправить".to_string();
            None
        },
    }
}

fn submit(app: &mut App, ctx: &KeyContext) -> (r: Option<KeyAction>)
    requires
        app_wf(old(app)@),
    ensures
        (final(app)@, action_view(r)) == submit_spec(old(app)@, ctx@),
        app_wf(final(app)@),
{
    let mut taken = String::new();
    std::mem::swap(&mut taken, &mut app.input);
    let line = trimmed(chars_of(taken.as_str()).as_slice());
    if line.len() == 0 {
        return None;
    }
    let dial = chars_of("/dial ");
    match strip_prefix_chars(line.as_slice(), dial.as_slice()) {
        Some(addr) => {
            let a = trimmed(addr.as_slice());
            return Some(KeyAction::Command(UiCommand::Dial { addr: string_of(a.as_slice()) }));
        },
        None => {},
    }
    let verify = chars_of("/verify");
    if chars_eq(line.as_slice(), verify.as_slice()) {
        return verify_selected(app);
    }
    let file = chars_of("/file ");
    match strip_prefix_chars(line.as_slice(), file.as_slice()) {
        Some(path) => send_file(app, path.as_slice(), ctx),
        None => send_text(app, line.as_slice(), &ctx.now),
    }
}

fn handle_browser_key(app: &mut App, key: KeyPress, now: &String) -> (r: Option<KeyAction>)
    requires
        app_wf(old(app)@),
        old(app)@.browser is Some,
    ensures
        (final(app)@, action_view(r)) == browser_key_spec(
            old(app)@,
            old(app)@.browser->0,
            key,
            now@,
        ),
        app_wf(final(app)@),
{
    let ghost a = app@;
    let code = key.code;
    let mut b = match app.file_browser.take() {
        Some(b) => b,
        None => {
            return None;
        },
    };
    assert(b@ == a.browser->0);
    if code == Key::Esc {
        None
    } else if code == Key::Char('c') && key.ctrl {
        app.file_browser = Some(b);
        quit(app)
    } else if code == Key::Up {
        b.up();
        app.file_browser = Some(b);
        None
    } else if code == Key::Down {
        b.down();
        app.file_browser = Some(b);
        None
    } else if code == Key::Enter {
        match b.activate() {
            None => {
                app.file_browser = Some(b);
                None
            },
            Some(BrowseStep::Enter(dir)) => {
                app.file_browser = Some(b);
                Some(KeyAction::ListDir(dir))
            },
            Some(BrowseStep::Send(path)) => {
                let peer = b.peer.copy();
                app.push_to_selected(Who::System, sending_line(path.as_str()), now.clone());
                Some(KeyAction::Command(UiCommand::SendFile { peer, path }))
            },
        }
    } else if code == Key::Backspace {
        match b.parent() {
            Some(p) => {
                app.file_browser = Some(b);
                Some(KeyAction::ListDir(p))
            },
            None => {
                app.file_browser = Some(b);
                None
            },
        }
    } else {
        app.file_browser = Some(b);
        None
    }
}

fn handle_chat_key(app: &mut App, key: KeyPress, ctx: &KeyContext) -> (r: Option<KeyAction>)
    requires
        app_wf(old(app)@),
        old(app)@.screen == Screen::Chat,
    ensures
        (final(app)@, action_view(r)) == chat_key_spec(old(app)@, key, ctx@),
        app_wf(final(app)@),
{
    let code = key.code;
    let ctrl = key.ctrl;
    if app.show_help {
        if code == Key::Char('c') && ctrl {
            return quit(app);
        }
        app.show_help = false;
        return None;
    }
    if app.file_browser.is_some() {
        return handle_browser_key(app, key, &ctx.now);
    }
    if code == Key::Esc || (code == Key::Char('c') && ctrl) {
        quit(app)
    } else if code == Key::Char('v') && ctrl {
        verify_selected(app)
    } else if code == Key::Char('f') && ctrl {
        if app.selected < app.peers.len() {
            Some(KeyAction::OpenBrowser)
        } else {
            app.status = "нет выбранного пира для файла".to_string();
            None
        }
    } else if code == Key::Char('r') && ctrl {
        Some(KeyAction::Command(UiCommand::RefreshDiscovery))
    } else if code == Key::F(1) || (code == Key::Char('?') && app.input.unicode_len() == 0) {
        app.show_help = true;
        None
    } else if code == Key::PageUp {
        app.scroll_up();
        None
    } else if code == Key::PageDown {
        app.scroll_down();
        None
    } else if code == Key::Tab || code == Key::Down {
        app.select_next();
        None
    } else if code == Key::Up {
        app.select_prev();
        None
    } else if code == Key::Backspace {
        pop_char(&mut app.input);
        None
    } else if code == Key::Enter {
        submit(app, ctx)
    } else {
        match code {
            Key::Char(c) => {
                push_char(&mut app.input, c);
                None
            },
            _ => None,
        }
    }
}

/// The peer lists hold the same peers, in the same places.
pub open spec fn same_peers(a: Seq<PeerEntryView>, b: Seq<PeerEntryView>) -> bool {
    &&& a.len() == b.len()
    &&& forall|i: int| 0 <= i < a.len() ==> (#[trigger] b[i]).id == a[i].id
}

/// Keys never add, remove or reorder peers: only what is shown of them (the
/// trust mark, the chat lines) changes.
pub proof fn law_keys_keep_peers(a: AppView, k: KeyPress, ctx: ContextView)
    ensures
        same_peers(a.peers, handle_key_spec(a, k, ctx).0.peers),
{
    let r = handle_key_spec(a, k, ctx).0;
    assert(same_peers(a.peers, r.peers));
}

/// Backspace on the chat screen (no help, no browser open) erases the last
/// character of the input, and only that: the input loses its last character
/// (an empty input stays empty), and the peers, the selection and the status
/// stay as they were; nothing is asked of the node.
pub proof fn law_backspace_erases_one(a: AppView, ctx: ContextView, ctrl: bool)
    requires
        a.screen == Screen::Chat,
        !a.show_help,
        a.browser is None,
    ensures
        ({
            let r = handle_key_spec(a, KeyPress { code: Key::Backspace, ctrl }, ctx);
            &&& a.input.len() > 0 ==> r.0.input.push(a.input.last()) == a.input
            &&& a.input.len() > 0 ==> r.0.input.len() + 1 == a.input.len()
            &&& a.input.len() == 0 ==> r.0.input == a.input
            &&& r.0.peers == a.peers
            &&& r.0.selected == a.selected
            &&& r.0.status == a.status
            &&& r.1 is None
        }),
{
    let r = handle_key_spec(a, KeyPress { code: Key::Backspace, ctrl }, ctx);
    if a.input.len() > 0 {
        assert(a.input.drop_last().push(a.input.last()) =~= a.input);
    }
}

} // verus!
