//! The state of the terminal interface (it lives in memory for the session).
use vstd::prelude::*;
use chrono::Timelike;
use crate::peer::{PeerKey, PeerKeyView};
use crate::message::{AppEvent, EventView, Presence, UiCommand, CommandView, texts};
use crate::config::{Settings, SettingsView, StartupConfig, copy_texts};
use crate::ui::files::{FileBrowser, BrowserView, RawEntry, loaded, listing_view};
use crate::ui::theme::ICON_FILE;
use crate::text::{
    decimal, decimal_string, is_digit, parse_u16, parse_port, trim, trimmed, chars_of, string_of,
    push_char, pop_char,
};

verus! {

broadcast use vstd::string::group_string_axioms;

/// Who wrote a chat line.
#[derive(PartialEq, Eq, Structural, Clone, Copy, Debug)]
pub enum Who {
    Me,
    Them,
    System,
}

/// One line of a chat.
pub struct ChatLine {
    pub who: Who,
    pub text: String,
    /// Local time `HH:MM` when the line was made.
    pub time: String,
}

/// A chat line as values.
pub struct LineView {
    pub who: Who,
    pub text: Seq<char>,
    pub time: Seq<char>,
}

impl View for ChatLine {
    type V = LineView;

    open spec fn view(&self) -> LineView {
        LineView { who: self.who, text: self.text@, time: self.time@ }
    }
}

impl ChatLine {
    /// A line by `who`, made at `time`.
    pub fn new(who: Who, text: String, time: String) -> (r: ChatLine)
        ensures
            r@ == (LineView { who, text: text@, time: time@ }),
    {
        ChatLine { who, text, time }
    }
}

/// Reads the local clock (`chrono::Local::now`) and gives its hour and minute
/// (`Timelike::hour`, `Timelike::minute`). The time depends on the moment and
/// the machine's time zone; what holds of every outcome is what the source
/// documents: the hour is 0 to 23 and the minute 0 to 59.
#[verifier::external_body]
fn local_hour_minute() -> (r: (u32, u32))
    ensures
        r.0 < 24,
        r.1 < 60,
{
    let t = chrono::Local::now();
    (t.hour(), t.minute())
}

/// A number below 100 as two decimal digits.
pub open spec fn two_digits(n: nat) -> Seq<char> {
    seq![((n / 10) + 48) as char, ((n % 10) + 48) as char]
}

/// The time `HH:MM`.
pub open spec fn hh_mm(h: nat, m: nat) -> Seq<char> {
    two_digits(h) + seq![':'] + two_digits(m)
}

/// A clock time `HH:MM`: hour 00 to 23, minute 00 to 59.
pub open spec fn is_clock_time(t: Seq<char>) -> bool {
    exists|h: nat, m: nat| h < 24 && m < 60 && t == #[trigger] hh_mm(h, m)
}

/// Two decimal digits of a number below 100.
fn push_two_digits(s: &mut String, n: u32)
    requires
        n < 100,
    ensures
        final(s)@ == old(s)@ + two_digits(n as nat),
{
    let tens = ((n / 10) as u8 + 48u8) as char;
    let ones = ((n % 10) as u8 + 48u8) as char;
    push_char(s, tens);
    push_char(s, ones);
    assert(final(s)@ =~= old(s)@ + two_digits(n as nat));
}

/// The local time now, as `HH:MM`.
pub fn clock_time() -> (r: String)
    ensures
        is_clock_time(r@),
{
    let (h, m) = local_hour_minute();
    let mut s = String::new();
    push_two_digits(&mut s, h);
    push_char(&mut s, ':');
    push_two_digits(&mut s, m);
    assert(s@ =~= hh_mm(h as nat, m as nat));
    s
}

/// What the interface knows of a peer.
pub struct PeerEntry {
    pub id: PeerKey,
    pub nick: String,
    pub fingerprint: String,
    pub online: bool,
    pub verified: bool,
    pub messages: Vec<ChatLine>,
}

/// A peer entry as values.
pub struct PeerEntryView {
    pub id: PeerKeyView,
    pub nick: Seq<char>,
    pub fingerprint: Seq<char>,
    pub online: bool,
    pub verified: bool,
    pub messages: Seq<LineView>,
}

impl View for PeerEntry {
    type V = PeerEntryView;

    open spec fn view(&self) -> PeerEntryView {
        PeerEntryView {
            id: self.id@,
            nick: self.nick@,
            fingerprint: self.fingerprint@,
            online: self.online,
            verified: self.verified,
            messages: self.messages@.map_values(|l: ChatLine| l@),
        }
    }
}

/// Which screen is shown.
#[derive(PartialEq, Eq, Structural, Clone, Copy, Debug)]
pub enum Screen {
    Setup,
    Chat,
}

/// The fields of the start screen.
#[derive(PartialEq, Eq, Structural, Clone, Copy, Debug)]
pub enum Field {
    Nick,
    Port,
    Dial,
    Remember,
}

/// The field at position `i` of the start screen.
pub open spec fn field_at(i: usize) -> Field {
    if i == 0 {
        Field::Nick
    } else if i == 1 {
        Field::Port
    } else if i == 2 {
        Field::Dial
    } else {
        Field::Remember
    }
}

/// The state of the start form.
pub struct SetupForm {
    pub nick: String,
    pub port: String,
    pub dial: String,
    pub remember: bool,
    pub field: usize,
    pub error: Option<String>,
}

/// The start form as values.
pub struct SetupView {
    pub nick: Seq<char>,
    pub port: Seq<char>,
    pub dial: Seq<char>,
    pub remember: bool,
    pub field: usize,
    pub error: Option<Seq<char>>,
}

impl View for SetupForm {
    type V = SetupView;

    open spec fn view(&self) -> SetupView {
        SetupView {
            nick: self.nick@,
            port: self.port@,
            dial: self.dial@,
            remember: self.remember,
            field: self.field,
            error: match self.error {
                Some(e) => Some(e@),
                None => None,
            },
        }
    }
}

/// Typing a character: the nickname and address take any character, the
/// port only ASCII digits, the checkbox nothing.
pub open spec fn input_char_spec(f: SetupView, c: char) -> SetupView {
    match field_at(f.field) {
        Field::Nick => SetupView { nick: f.nick.push(c), ..f },
        Field::Port => if is_digit(c) {
            SetupView { port: f.port.push(c), ..f }
        } else {
            f
        },
        Field::Dial => SetupView { dial: f.dial.push(c), ..f },
        Field::Remember => f,
    }
}

/// The text without its last character (unchanged when empty).
pub open spec fn drop_last_char(s: Seq<char>) -> Seq<char> {
    if s.len() == 0 {
        s
    } else {
        s.drop_last()
    }
}

/// Erasing a character in the current text field.
pub open spec fn backspace_spec(f: SetupView) -> SetupView {
    match field_at(f.field) {
        Field::Nick => SetupView { nick: drop_last_char(f.nick), ..f },
        Field::Port => SetupView { port: drop_last_char(f.port), ..f },
        Field::Dial => SetupView { dial: drop_last_char(f.dial), ..f },
        Field::Remember => f,
    }
}

impl SetupForm {
    /// The current field.
    pub fn current(&self) -> (r: Field)
        requires
            self.field < 4,
        ensures
            r == field_at(self.field),
    {
        if self.field == 0 {
            Field::Nick
        } else if self.field == 1 {
            Field::Port
        } else if self.field == 2 {
            Field::Dial
        } else {
            Field::Remember
        }
    }

    /// Move to the next field (cyclically).
    pub fn next_field(&mut self)
        requires
            old(self).field < usize::MAX,
        ensures
            final(self)@ == (SetupView { field: ((old(self).field + 1) % 4) as usize, ..old(self)@ }),
    {
        self.field = (self.field + 1) % 4;
    }

    /// Move to the previous field (cyclically).
    pub fn prev_field(&mut self)
        requires
            old(self).field + 3 <= usize::MAX,
        ensures
            final(self)@ == (SetupView { field: ((old(self).field + 3) % 4) as usize, ..old(self)@ }),
    {
        self.field = (self.field + 3) % 4;
    }

    /// Type a character into the current field.
    pub fn input_char(&mut self, c: char)
        requires
            old(self).field < 4,
        ensures
            final(self)@ == input_char_spec(old(self)@, c),
    {
        match self.current() {
            Field::Nick => push_char(&mut self.nick, c),
            Field::Port => {
                if '0' <= c && c <= '9' {
                    push_char(&mut self.port, c);
                }
            },
            Field::Dial => push_char(&mut self.dial, c),
            Field::Remember => {},
        }
    }

    /// Erase the last character of the current text field.
    pub fn backspace(&mut self)
        requires
            old(self).field < 4,
        ensures
            final(self)@ == backspace_spec(old(self)@),
    {
        match self.current() {
            Field::Nick => {
                pop_char(&mut self.nick);
            },
            Field::Port => {
                pop_char(&mut self.port);
            },
            Field::Dial => {
                pop_char(&mut self.dial);
            },
            Field::Remember => {},
        }
    }

    /// Tick or untick the checkbox when it is the current field.
    pub fn toggle(&mut self)
        requires
            old(self).field < 4,
        ensures
            final(self)@ == (if field_at(old(self).field) == Field::Remember {
                SetupView { remember: !old(self).remember, ..old(self)@ }
            } else {
                old(self)@
            }),
    {
        if self.field >= 3 {
            self.remember = !self.remember;
        }
    }
}

/// Going forward then back through the fields returns to the same field,
/// and four steps forward go all the way round.
pub proof fn law_fields_cycle(i: usize)
    requires
        i < 4,
    ensures
        ((((i + 1) % 4) + 3) % 4) == i,
        ((((i + 3) % 4) + 1) % 4) == i,
        (((((((i + 1) % 4) + 1) % 4) + 1) % 4) + 1) % 4 == i,
{
}


/// The state of the interface.
pub struct App {
    pub me_nick: String,
    pub me_fingerprint: String,
    pub listen_addrs: Vec<String>,
    pub peers: Vec<PeerEntry>,
    pub selected: usize,
    pub input: String,
    pub status: String,
    pub should_quit: bool,
    pub screen: Screen,
    pub setup: SetupForm,
    pub show_help: bool,
    /// How many lines the chat is scrolled up from the bottom (0: at the bottom).
    pub scroll: usize,
    /// The file browser (choosing a file to send), when it is open.
    pub file_browser: Option<FileBrowser>,
}

/// The interface as values.
pub struct AppView {
    pub me_nick: Seq<char>,
    pub me_fingerprint: Seq<char>,
    pub listen_addrs: Seq<Seq<char>>,
    pub peers: Seq<PeerEntryView>,
    pub selected: usize,
    pub input: Seq<char>,
    pub status: Seq<char>,
    pub should_quit: bool,
    pub screen: Screen,
    pub setup: SetupView,
    pub show_help: bool,
    pub scroll: usize,
    pub browser: Option<BrowserView>,
}

impl View for App {
    type V = AppView;

    open spec fn view(&self) -> AppView {
        AppView {
            me_nick: self.me_nick@,
            me_fingerprint: self.me_fingerprint@,
            listen_addrs: texts(self.listen_addrs@),
            peers: self.peers@.map_values(|p: PeerEntry| p@),
            selected: self.selected,
            input: self.input@,
            status: self.status@,
            should_quit: self.should_quit,
            screen: self.screen,
            setup: self.setup@,
            show_help: self.show_help,
            scroll: self.scroll,
            browser: match self.file_browser {
                Some(b) => Some(b@),
                None => None,
            },
        }
    }
}

/// The selection is within the peer list (or at 0 when it is empty), and the
/// start form is on one of its fields.
pub open spec fn app_wf(a: AppView) -> bool {
    &&& (a.selected < a.peers.len() || a.selected == 0)
    &&& a.setup.field < 4
}

/// The short form of a peer identifier: its last eight characters.
pub open spec fn short_name(text: Seq<char>) -> Seq<char> {
    "peer-"@ + text.skip(if text.len() >= 8 {
        text.len() - 8
    } else {
        0
    })
}

/// The entry of a peer that the interface has just heard of.
pub open spec fn fresh_entry(key: PeerKeyView) -> PeerEntryView {
    PeerEntryView {
        id: key,
        nick: short_name(key.text),
        fingerprint: Seq::empty(),
        online: false,
        verified: false,
        messages: Seq::empty(),
    }
}

/// The position of the first entry of the peer.
pub open spec fn find_entry(ps: Seq<PeerEntryView>, id: Seq<u8>) -> Option<int>
    decreases ps.len(),
{
    if ps.len() == 0 {
        None
    } else if ps[0].id.bytes == id {
        Some(0)
    } else {
        match find_entry(ps.drop_first(), id) {
            Some(i) => Some(i + 1),
            None => None,
        }
    }
}

/// The peer list with the peer in it, and its position.
pub open spec fn with_entry(ps: Seq<PeerEntryView>, key: PeerKeyView) -> (Seq<PeerEntryView>, int) {
    match find_entry(ps, key.bytes) {
        Some(i) => (ps, i),
        None => (ps.push(fresh_entry(key)), ps.len() as int),
    }
}

/// The chat line that reports a file transfer.
pub open spec fn file_line(
    name: Seq<char>,
    received: u64,
    total: u64,
    done: Option<Seq<char>>,
    outgoing: bool,
) -> Seq<char> {
    let f = ICON_FILE@;
    if done is Some && !outgoing {
        f + " получен файл «"@ + name + "» → "@ + done->0
    } else if outgoing {
        f + " отправлен файл «"@ + name + "» ("@ + decimal(total as nat) + " Б)"@
    } else {
        f + " приём «"@ + name + "»: "@ + decimal(received as nat) + "/"@ + decimal(total as nat)
            + " Б"@
    }
}

/// Add a line to the chat of the peer at position `i`.
pub open spec fn add_line(ps: Seq<PeerEntryView>, i: int, line: LineView) -> Seq<PeerEntryView> {
    ps.update(i, PeerEntryView { messages: ps[i].messages.push(line), ..ps[i] })
}

/// The interface with a line added to the chat of the selected peer, if
/// any; the chat is scrolled back down.
pub open spec fn pushed_to_selected(a: AppView, line: LineView) -> AppView {
    AppView {
        peers: if a.selected < a.peers.len() {
            add_line(a.peers, a.selected as int, line)
        } else {
            a.peers
        },
        scroll: 0,
        ..a
    }
}

/// The next peer selected (cyclically), the chat scrolled back down.
pub open spec fn selected_next(a: AppView) -> AppView {
    if a.peers.len() > 0 {
        AppView { selected: ((a.selected + 1) % (a.peers.len() as int)) as usize, scroll: 0, ..a }
    } else {
        a
    }
}

/// The previous peer selected (cyclically), the chat scrolled back down.
pub open spec fn selected_prev(a: AppView) -> AppView {
    if a.peers.len() > 0 {
        AppView {
            selected: ((a.selected + a.peers.len() - 1) % (a.peers.len() as int)) as usize,
            scroll: 0,
            ..a
        }
    } else {
        a
    }
}

/// The message when a file is to be sent and no peer is selected.
pub open spec fn no_peer_for_file_text() -> Seq<char> {
    "нет выбранного пира для файла"@
}

/// What an event from the engine does to the interface; `now` is the local
/// time for new chat lines.
pub open spec fn apply_spec(a: AppView, ev: EventView, now: Seq<char>) -> AppView {
    match ev {
        EventView::Listening { addr } => if a.listen_addrs.contains(addr) {
            a
        } else {
            AppView { listen_addrs: a.listen_addrs.push(addr), ..a }
        },
        EventView::PeerDiscovered { peer, nick, fingerprint } => {
            let w = with_entry(a.peers, peer);
            AppView { peers: w.0.update(w.1, PeerEntryView { nick, fingerprint, ..w.0[w.1] }), ..a }
        },
        EventView::PeerPresence { peer, presence } => {
            let w = with_entry(a.peers, peer);
            AppView {
                peers: w.0.update(w.1, PeerEntryView { online: presence == Presence::Online, ..w.0[w.1] }),
                ..a
            }
        },
        EventView::MessageReceived { peer, text } => {
            let w = with_entry(a.peers, peer);
            AppView {
                peers: add_line(w.0, w.1, LineView { who: Who::Them, text, time: now }),
                scroll: 0,
                ..a
            }
        },
        EventView::FileProgress { peer, name, received, total, done, outgoing } => {
            let w = with_entry(a.peers, peer);
            AppView {
                peers: add_line(
                    w.0,
                    w.1,
                    LineView {
                        who: Who::System,
                        text: file_line(name, received, total, done, outgoing),
                        time: now,
                    },
                ),
                ..a
            }
        },
        EventView::Status(text) => AppView { status: text, ..a },
    }
}

proof fn lemma_find_entry(ps: Seq<PeerEntryView>, id: Seq<u8>, k: int)
    requires
        0 <= k <= ps.len(),
        forall|j: int| 0 <= j < k ==> ps[j].id.bytes != id,
    ensures
        k < ps.len() && ps[k].id.bytes == id ==> find_entry(ps, id) == Some(k),
        k == ps.len() ==> find_entry(ps, id) is None,
    decreases k,
{
    if k > 0 {
        lemma_find_entry(ps.drop_first(), id, k - 1);
    } else if ps.len() > 0 {
    }
}

proof fn lemma_find_entry_bound(ps: Seq<PeerEntryView>, id: Seq<u8>)
    ensures
        find_entry(ps, id) matches Some(i) ==> 0 <= i < ps.len() && ps[i].id.bytes == id,
    decreases ps.len(),
{
    if ps.len() > 0 {
        lemma_find_entry_bound(ps.drop_first(), id);
    }
}

/// The short form of a peer identifier text: `peer-` and its last eight
/// characters.
pub fn short_id(text: &str) -> (r: String)
    ensures
        r@ == short_name(text@),
{
    let v = chars_of(text);
    let start = if v.len() >= 8 {
        v.len() - 8
    } else {
        0
    };
    let tail = crate::text::slice_range(v.as_slice(), start, v.len());
    let mut r = "peer-".to_string();
    r.append(string_of(tail.as_slice()).as_str());
    assert(tail@ =~= text@.skip(start as int));
    r
}

impl App {
    /// The interface at launch.
    pub fn new(me_fingerprint: String, startup: StartupConfig) -> (r: App)
        ensures
            r@.screen == (if startup.interactive {
                Screen::Setup
            } else {
                Screen::Chat
            }),
            r@.setup == (SetupView {
                nick: startup.nick@,
                port: if startup.port == 0 {
                    Seq::empty()
                } else {
                    decimal(startup.port as nat)
                },
                dial: startup.dial@,
                remember: startup.remember,
                field: 0,
                error: None,
            }),
            r@.me_nick == startup.nick@,
            r@.me_fingerprint == me_fingerprint@,
            r@.listen_addrs == Seq::<Seq<char>>::empty(),
            r@.peers == Seq::<PeerEntryView>::empty(),
            r@.selected == 0,
            r@.input == Seq::<char>::empty(),
            r@.status == (if startup.interactive {
                "настройте узел и нажмите Enter"@
            } else {
                "ожидание пиров…"@
            }),
            !r@.should_quit,
            !r@.show_help,
            r@.scroll == 0,
            r@.browser is None,
            app_wf(r@),
    {
        let screen = if startup.interactive {
            Screen::Setup
        } else {
            Screen::Chat
        };
        let setup = SetupForm {
            nick: startup.nick.clone(),
            port: if startup.port == 0 {
                String::new()
            } else {
                decimal_string(startup.port as u64)
            },
            dial: startup.dial,
            remember: startup.remember,
            field: 0,
            error: None,
        };
        let status = if startup.interactive {
            "настройте узел и нажмите Enter".to_string()
        } else {
            "ожидание пиров…".to_string()
        };
        let r = App {
            me_nick: startup.nick,
            me_fingerprint,
            listen_addrs: Vec::new(),
            peers: Vec::new(),
            selected: 0,
            input: String::new(),
            status,
            should_quit: false,
            screen,
            setup,
            show_help: false,
            scroll: 0,
            file_browser: None,
        };
        assert(r@.listen_addrs =~= Seq::<Seq<char>>::empty());
        assert(r@.peers =~= Seq::<PeerEntryView>::empty());
        r
    }

    /// The selected peer, if any.
    pub fn selected_peer(&self) -> (r: Option<&PeerEntry>)
        ensures
            match r {
                Some(p) => self.selected < self.peers@.len() && p@ == self@.peers[self.selected as int],
                None => self.selected >= self.peers@.len(),
            },
    {
        if self.selected < self.peers.len() {
            Some(&self.peers[self.selected])
        } else {
            None
        }
    }

    /// The identifier of the selected peer, if any.
    pub fn selected_peer_id(&self) -> (r: Option<PeerKey>)
        ensures
            match r {
                Some(k) => self.selected < self.peers@.len() && k@ == self@.peers[self.selected as int].id,
                None => self.selected >= self.peers@.len(),
            },
    {
        if self.selected < self.peers.len() {
            Some(self.peers[self.selected].id.copy())
        } else {
            None
        }
    }

    /// Select the next peer (cyclically); the chat scrolls back down.
    pub fn select_next(&mut self)
        requires
            app_wf(old(self)@),
        ensures
            final(self)@ == selected_next(old(self)@),
            app_wf(final(self)@),
    {
        if self.peers.len() > 0 {
            self.selected = (self.selected + 1) % self.peers.len();
            self.scroll = 0;
        }
    }

    /// Select the previous peer (cyclically); the chat scrolls back down.
    pub fn select_prev(&mut self)
        requires
            app_wf(old(self)@),
        ensures
            final(self)@ == selected_prev(old(self)@),
            app_wf(final(self)@),
    {
        let n = self.peers.len();
        let ghost s0 = self.selected;
        if n > 0 {
            self.selected = if self.selected == 0 {
                n - 1
            } else {
                self.selected - 1
            };
            self.scroll = 0;
            let ghost s1 = self.selected;
            assert(((s0 + n - 1) % (n as int)) == s1) by (nonlinear_arith)
                requires
                    s0 < n,
                    n > 0,
                    s1 == (if s0 == 0 {
                        n - 1
                    } else {
                        s0 - 1
                    }),
            ;
        }
    }

    /// Scroll the chat up by three lines.
    pub fn scroll_up(&mut self)
        ensures
            final(self)@ == (AppView { scroll: old(self).scroll.saturating_add(3), ..old(self)@ }),
    {
        self.scroll = self.scroll.saturating_add(3);
    }

    /// Scroll the chat down by three lines.
    pub fn scroll_down(&mut self)
        ensures
            final(self)@ == (AppView { scroll: old(self).scroll.saturating_sub(3), ..old(self)@ }),
    {
        self.scroll = self.scroll.saturating_sub(3);
    }

    /// The position of the peer's entry, made when it is new.
    fn peer_index(&mut self, key: &PeerKey) -> (i: usize)
        requires
            app_wf(old(self)@),
        ensures
            final(self)@ == (AppView { peers: with_entry(old(self)@.peers, key@).0, ..old(self)@ }),
            i == with_entry(old(self)@.peers, key@).1,
            i < final(self)@.peers.len(),
            app_wf(final(self)@),
    {
        let ghost ps = self@.peers;
        let ghost a0 = self@;
        let n = self.peers.len();
        let mut k: usize = 0;
        while k < n
            invariant
                n == self.peers@.len(),
                self@ == a0,
                app_wf(a0),
                ps == self@.peers,
                k <= n,
                forall|j: int| 0 <= j < k ==> ps[j].id.bytes != key@.bytes,
            decreases n - k,
        {
            assert(ps[k as int] == self.peers@[k as int]@);
            if self.peers[k].id.same(key) {
                proof {
                    lemma_find_entry(ps, key@.bytes, k as int);
                }
                return k;
            }
            k = k + 1;
        }
        proof {
            lemma_find_entry(ps, key@.bytes, n as int);
        }
        let nick = short_id(key.text.as_str());
        self.peers.push(
            PeerEntry {
                id: key.copy(),
                nick,
                fingerprint: String::new(),
                online: false,
                verified: false,
                messages: Vec::new(),
            },
        );
        proof {
            assert(self@.peers[n as int].messages =~= Seq::<LineView>::empty());
            assert(self@.peers =~= ps.push(fresh_entry(key@)));
        }
        n
    }

    /// Add a line to the chat of the selected peer (for example, what we sent);
    /// the chat scrolls back down.
    pub fn push_to_selected(&mut self, who: Who, text: String, now: String)
        requires
            app_wf(old(self)@),
        ensures
            final(self)@ == pushed_to_selected(old(self)@, LineView { who, text: text@, time: now@ }),
            app_wf(final(self)@),
    {
        let ghost ps = self@.peers;
        if self.selected < self.peers.len() {
            let i = self.selected;
            let line = ChatLine::new(who, text, now);
            let ghost lv = line@;
            self.peers[i].messages.push(line);
            proof {
                assert(self@.peers[i as int].messages =~= ps[i as int].messages.push(lv));
                assert(self@.peers =~= add_line(ps, i as int, lv));
            }
        }
        self.scroll = 0;
    }

    /// The chat line text for a file transfer.
    fn file_line_text(name: &str, received: u64, total: u64, done: &Option<String>, outgoing: bool) -> (r: String)
        ensures
            r@ == file_line(
                name@,
                received,
                total,
                match done {
                    Some(p) => Some(p@),
                    None => None,
                },
                outgoing,
            ),
    {
        let mut line = ICON_FILE.to_string();
        match done {
            Some(path) if !outgoing => {
                line.append(" получен файл «");
                line.append(name);
                line.append("» → ");
                line.append(path.as_str());
            },
            _ => {
                if outgoing {
                    line.append(" отправлен файл «");
                    line.append(name);
                    line.append("» (");
                    line.append(decimal_string(total).as_str());
                    line.append(" Б)");
                } else {
                    line.append(" приём «");
                    line.append(name);
                    line.append("»: ");
                    line.append(decimal_string(received).as_str());
                    line.append("/");
                    line.append(decimal_string(total).as_str());
                    line.append(" Б");
                }
            },
        }
        line
    }

    /// Take in an event from the engine; `now` is the local time `HH:MM`.
    pub fn apply(&mut self, ev: AppEvent, now: String)
        requires
            app_wf(old(self)@),
        ensures
            final(self)@ == apply_spec(old(self)@, ev@, now@),
            app_wf(final(self)@),
    {
        let ghost a = self@;
        let ghost evv = ev@;
        match ev {
            AppEvent::Listening { addr } => {
                let mut found = false;
                let mut k: usize = 0;
                while k < self.listen_addrs.len()
                    invariant
                        self@ == a,
                        k <= self.listen_addrs@.len(),
                        found == exists|j: int| 0 <= j < k && a.listen_addrs[j] == addr@,
                    decreases self.listen_addrs@.len() - k,
                {
                    assert(a.listen_addrs[k as int] == self.listen_addrs@[k as int]@);
                    if self.listen_addrs[k] == addr {
                        found = true;
                    }
                    k = k + 1;
                }
                proof {
                    if found {
                        let j = choose|j: int| 0 <= j < k && a.listen_addrs[j] == addr@;
                        assert(a.listen_addrs.contains(addr@));
                    } else {
                        assert forall|j: int| 0 <= j < a.listen_addrs.len() implies a.listen_addrs[j] != addr@ by {}
                    }
                }
                if !found {
                    let ghost av = addr@;
                    self.listen_addrs.push(addr);
                    assert(self@.listen_addrs =~= a.listen_addrs.push(av));
                }
            },
            AppEvent::PeerDiscovered { peer, nick, fingerprint } => {
                let i = self.peer_index(&peer);
                let ghost ps = self@.peers;
                let ghost nv = nick@;
                let ghost fv = fingerprint@;
                self.peers[i].nick = nick;
                self.peers[i].fingerprint = fingerprint;
                assert(self@.peers =~= ps.update(i as int, PeerEntryView { nick: nv, fingerprint: fv, ..ps[i as int] }));
            },
            AppEvent::PeerPresence { peer, presence } => {
                let i = self.peer_index(&peer);
                let ghost ps = self@.peers;
                self.peers[i].online = presence == Presence::Online;
                assert(self@.peers =~= ps.update(
                    i as int,
                    PeerEntryView { online: presence == Presence::Online, ..ps[i as int] },
                ));
            },
            AppEvent::MessageReceived { peer, text } => {
                let i = self.peer_index(&peer);
                let ghost ps = self@.peers;
                let line = ChatLine::new(Who::Them, text, now);
                let ghost lv = line@;
                self.peers[i].messages.push(line);
                self.scroll = 0;
                assert(self@.peers[i as int].messages =~= ps[i as int].messages.push(lv));
                assert(self@.peers =~= add_line(ps, i as int, lv));
            },
            AppEvent::FileProgress { peer, name, received, total, done, outgoing } => {
                let text = Self::file_line_text(name.as_str(), received, total, &done, outgoing);
                let i = self.peer_index(&peer);
                let ghost ps = self@.peers;
                let line = ChatLine::new(Who::System, text, now);
                let ghost lv = line@;
                self.peers[i].messages.push(line);
                assert(self@.peers[i as int].messages =~= ps[i as int].messages.push(lv));
                assert(self@.peers =~= add_line(ps, i as int, lv));
            },
            AppEvent::Status(msg) => {
                self.status = msg;
            },
        }
    }
}


/// The message when the port field does not hold a port number.
pub open spec fn port_error_text() -> Seq<char> {
    "порт должен быть числом 0–65535"@
}

/// The start command and the settings to save that the start form gives.
pub struct Launched {
    pub command: UiCommand,
    pub save: Option<Settings>,
}

/// Confirming the start form: the nickname (trimmed; the fallback when
/// empty), the port (trimmed; empty means 0; anything that is not a port
/// number is refused with a message) and at most one address (trimmed).
/// When "remember" is ticked the choices are to be saved. The chat screen
/// follows.
pub open spec fn submit_setup_spec(a: AppView, fallback: Seq<char>) -> (
    AppView,
    Option<(CommandView, Option<SettingsView>)>,
) {
    let n = trim(a.setup.nick);
    let nick = if n.len() == 0 {
        fallback
    } else {
        n
    };
    let p = trim(a.setup.port);
    let port = if p.len() == 0 {
        Some(0u16)
    } else {
        parse_u16(p)
    };
    match port {
        None => (AppView { setup: SetupView { error: Some(port_error_text()), ..a.setup }, ..a }, None),
        Some(port) => {
            let d = trim(a.setup.dial);
            let dials = if d.len() == 0 {
                Seq::<Seq<char>>::empty()
            } else {
                seq![d]
            };
            (
                AppView {
                    me_nick: nick,
                    screen: Screen::Chat,
                    setup: SetupView { error: None, ..a.setup },
                    ..a
                },
                Some(
                    (
                        CommandView::Start { nick, port, dials },
                        if a.setup.remember {
                            Some(SettingsView { nick: Some(nick), port, dial: dials, remember: true })
                        } else {
                            None
                        },
                    ),
                ),
            )
        },
    }
}

impl App {
    /// Confirm the start form; `fallback_nick` is the system user name.
    pub fn submit_setup(&mut self, fallback_nick: String) -> (r: Option<Launched>)
        requires
            app_wf(old(self)@),
        ensures
            final(self)@ == submit_setup_spec(old(self)@, fallback_nick@).0,
            match r {
                Some(l) => submit_setup_spec(old(self)@, fallback_nick@).1 == Some(
                    (
                        l.command@,
                        match l.save {
                            Some(st) => Some(st@),
                            None => None::<SettingsView>,
                        },
                    ),
                ),
                None => submit_setup_spec(old(self)@, fallback_nick@).1 is None,
            },
            app_wf(final(self)@),
    {
        let nick_chars = trimmed(chars_of(self.setup.nick.as_str()).as_slice());
        let nick = if nick_chars.len() == 0 {
            fallback_nick
        } else {
            string_of(nick_chars.as_slice())
        };
        let port_chars = trimmed(chars_of(self.setup.port.as_str()).as_slice());
        let port: u16 = if port_chars.len() == 0 {
            0
        } else {
            match parse_port(port_chars.as_slice()) {
                Some(p) => p,
                None => {
                    self.setup.error = Some("порт должен быть числом 0–65535".to_string());
                    return None;
                },
            }
        };
        let dial_chars = trimmed(chars_of(self.setup.dial.as_str()).as_slice());
        let mut dials: Vec<String> = Vec::new();
        if dial_chars.len() > 0 {
            dials.push(string_of(dial_chars.as_slice()));
        }
        assert(texts(dials@) =~= (if trim(self.setup.dial@).len() == 0 {
            Seq::<Seq<char>>::empty()
        } else {
            seq![trim(self.setup.dial@)]
        }));
        let save = if self.setup.remember {
            Some(Settings { nick: Some(nick.clone()), port, dial: copy_texts(&dials), remember: true })
        } else {
            None
        };
        self.me_nick = nick.clone();
        self.screen = Screen::Chat;
        self.setup.error = None;
        Some(Launched { command: UiCommand::Start { nick, port, dials }, save })
    }
}

impl App {
    /// Open the file browser for sending a file to the selected peer, in
    /// `cwd` with its listing; without a selected peer, say so instead.
    pub fn open_file_browser(&mut self, cwd: String, listing: Result<Vec<RawEntry>, String>)
        requires
            app_wf(old(self)@),
        ensures
            old(self).selected < old(self)@.peers.len() ==> {
                &&& final(self)@ == (AppView { browser: final(self)@.browser, ..old(self)@ })
                &&& final(self)@.browser matches Some(b) && loaded(
                    BrowserView {
                        peer: old(self)@.peers[old(self).selected as int].id,
                        cwd: cwd@,
                        entries: Seq::empty(),
                        selected: 0,
                        error: None,
                        reselect: None,
                    },
                    listing_view(listing),
                    b,
                )
            },
            old(self).selected >= old(self)@.peers.len() ==> final(self)@ == (AppView {
                status: no_peer_for_file_text(),
                ..old(self)@
            }),
            app_wf(final(self)@),
    {
        match self.selected_peer_id() {
            Some(peer) => {
                self.file_browser = Some(FileBrowser::open(peer, cwd, listing));
            },
            None => {
                self.status = "нет выбранного пира для файла".to_string();
            },
        }
    }

    /// Take in the listing of the directory that the open browser moved to.
    pub fn browser_listing(&mut self, listing: Result<Vec<RawEntry>, String>)
        requires
            app_wf(old(self)@),
        ensures
            match old(self)@.browser {
                Some(b) => {
                    &&& final(self)@ == (AppView { browser: final(self)@.browser, ..old(self)@ })
                    &&& final(self)@.browser matches Some(nb) && loaded(b, listing_view(listing), nb)
                },
                None => final(self)@ == old(self)@,
            },
            app_wf(final(self)@),
    {
        match self.file_browser.take() {
            Some(mut b) => {
                b.load(listing);
                self.file_browser = Some(b);
            },
            None => {},
        }
    }
}

/// No two entries of the peer list are for the same peer.
pub open spec fn unique_peers(ps: Seq<PeerEntryView>) -> bool {
    forall|i: int, j: int|
        0 <= i < j < ps.len() ==> #[trigger] ps[i].id.bytes != #[trigger] ps[j].id.bytes
}

proof fn lemma_with_entry(ps: Seq<PeerEntryView>, key: PeerKeyView)
    requires
        unique_peers(ps),
    ensures
        unique_peers(with_entry(ps, key).0),
        0 <= with_entry(ps, key).1 < with_entry(ps, key).0.len(),
        with_entry(ps, key).0[with_entry(ps, key).1].id.bytes == key.bytes,
{
    lemma_find_entry_bound(ps, key.bytes);
    match find_entry(ps, key.bytes) {
        Some(i) => {},
        None => {
            lemma_find_entry_none(ps, key.bytes);
            let qs = ps.push(fresh_entry(key));
            assert forall|i: int, j: int| 0 <= i < j < qs.len() implies #[trigger] qs[i].id.bytes
                != #[trigger] qs[j].id.bytes by {
                if j == ps.len() {
                    assert(ps[i].id.bytes != key.bytes);
                } else {
                    assert(qs[i] == ps[i] && qs[j] == ps[j]);
                }
            }
        },
    }
}

proof fn lemma_find_entry_none(ps: Seq<PeerEntryView>, id: Seq<u8>)
    requires
        find_entry(ps, id) is None,
    ensures
        forall|i: int| 0 <= i < ps.len() ==> #[trigger] ps[i].id.bytes != id,
    decreases ps.len(),
{
    if ps.len() > 0 {
        lemma_find_entry_none(ps.drop_first(), id);
        assert forall|i: int| 0 <= i < ps.len() implies #[trigger] ps[i].id.bytes != id by {
            if i > 0 {
                assert(ps[i] == ps.drop_first()[i - 1]);
            }
        }
    }
}

proof fn lemma_update_same_id(ps: Seq<PeerEntryView>, i: int, e: PeerEntryView)
    requires
        unique_peers(ps),
        0 <= i < ps.len(),
        e.id.bytes == ps[i].id.bytes,
    ensures
        unique_peers(ps.update(i, e)),
{
    let qs = ps.update(i, e);
    assert forall|a: int, b: int| 0 <= a < b < qs.len() implies #[trigger] qs[a].id.bytes
        != #[trigger] qs[b].id.bytes by {
        assert(qs[a].id.bytes == ps[a].id.bytes);
        assert(qs[b].id.bytes == ps[b].id.bytes);
    }
}

/// The interface keeps one entry per peer: whatever event comes, no peer is
/// listed twice, and the peer that the event is about is listed.
pub proof fn law_one_entry_per_peer(a: AppView, ev: EventView, now: Seq<char>)
    requires
        unique_peers(a.peers),
    ensures
        unique_peers(apply_spec(a, ev, now).peers),
        match ev {
            EventView::PeerDiscovered { peer, .. } => find_entry(apply_spec(a, ev, now).peers, peer.bytes)
                is Some,
            EventView::PeerPresence { peer, .. } => find_entry(apply_spec(a, ev, now).peers, peer.bytes)
                is Some,
            EventView::MessageReceived { peer, .. } => find_entry(apply_spec(a, ev, now).peers, peer.bytes)
                is Some,
            EventView::FileProgress { peer, .. } => find_entry(apply_spec(a, ev, now).peers, peer.bytes)
                is Some,
            _ => true,
        },
{
    let r = apply_spec(a, ev, now);
    match ev {
        EventView::PeerDiscovered { peer, nick, fingerprint } => {
            let w = with_entry(a.peers, peer);
            lemma_with_entry(a.peers, peer);
            lemma_update_same_id(w.0, w.1, PeerEntryView { nick, fingerprint, ..w.0[w.1] });
            lemma_present(r.peers, peer.bytes, w.1);
        },
        EventView::PeerPresence { peer, presence } => {
            let w = with_entry(a.peers, peer);
            lemma_with_entry(a.peers, peer);
            lemma_update_same_id(
                w.0,
                w.1,
                PeerEntryView { online: presence == Presence::Online, ..w.0[w.1] },
            );
            lemma_present(r.peers, peer.bytes, w.1);
        },
        EventView::MessageReceived { peer, text } => {
            let w = with_entry(a.peers, peer);
            lemma_with_entry(a.peers, peer);
            let line = LineView { who: Who::Them, text, time: now };
            lemma_update_same_id(w.0, w.1, PeerEntryView { messages: w.0[w.1].messages.push(line), ..w.0[w.1] });
            lemma_present(r.peers, peer.bytes, w.1);
        },
        EventView::FileProgress { peer, name, received, total, done, outgoing } => {
            let w = with_entry(a.peers, peer);
            lemma_with_entry(a.peers, peer);
            let line = LineView {
                who: Who::System,
                text: file_line(name, received, total, done, outgoing),
                time: now,
            };
            lemma_update_same_id(w.0, w.1, PeerEntryView { messages: w.0[w.1].messages.push(line), ..w.0[w.1] });
            lemma_present(r.peers, peer.bytes, w.1);
        },
        _ => {},
    }
}

proof fn lemma_present(ps: Seq<PeerEntryView>, id: Seq<u8>, i: int)
    requires
        0 <= i < ps.len(),
        ps[i].id.bytes == id,
    ensures
        find_entry(ps, id) is Some,
{
    if find_entry(ps, id) is None {
        lemma_find_entry_none(ps, id);
    }
}

/// Our own address is listed once: hearing of it again changes nothing.
pub proof fn law_listen_once(a: AppView, addr: Seq<char>, now: Seq<char>)
    ensures
        ({
            let ev = EventView::Listening { addr };
            apply_spec(apply_spec(a, ev, now), ev, now) == apply_spec(a, ev, now)
        }),
{
    let ev = EventView::Listening { addr };
    let b = apply_spec(a, ev, now);
    if !a.listen_addrs.contains(addr) {
        assert(b.listen_addrs[a.listen_addrs.len() as int] == addr);
        assert(b.listen_addrs.contains(addr));
    }
}

/// Moving the selection forward and then back (or back and then forward)
/// returns to the same peer, with the chat scrolled down.
pub proof fn law_select_round_trip(a: AppView)
    requires
        app_wf(a),
        a.peers.len() <= usize::MAX,
    ensures
        selected_prev(selected_next(a)) == (AppView { scroll: 0, ..a }) || a.peers.len() == 0,
        selected_next(selected_prev(a)) == (AppView { scroll: 0, ..a }) || a.peers.len() == 0,
{
    let n = a.peers.len() as int;
    let s = a.selected as int;
    if n > 0 {
        let b = selected_next(a);
        let c = selected_prev(a);
        if s + 1 < n {
            assert((s + 1) % n == s + 1) by (nonlinear_arith)
                requires
                    0 <= s + 1 < n,
            ;
            assert((s + 1 + n - 1) % n == s) by (nonlinear_arith)
                requires
                    0 <= s < n,
            ;
        } else {
            assert((s + 1) % n == 0) by (nonlinear_arith)
                requires
                    s + 1 == n,
                    n > 0,
            ;
            assert((0 + n - 1) % n == n - 1) by (nonlinear_arith)
                requires
                    n > 0,
            ;
        }
        if s > 0 {
            assert((s + n - 1) % n == s - 1) by (nonlinear_arith)
                requires
                    0 < s < n,
            ;
            assert((s - 1 + 1) % n == s) by (nonlinear_arith)
                requires
                    0 < s < n,
            ;
        } else {
            assert((s + n - 1) % n == n - 1) by (nonlinear_arith)
                requires
                    s == 0,
                    n > 0,
            ;
            assert((n - 1 + 1) % n == 0) by (nonlinear_arith)
                requires
                    n > 0,
            ;
        }
        assert(b.selected as int == (s + 1) % n);
        assert(selected_prev(b).selected == a.selected);
        assert(c.selected as int == (s + n - 1) % n);
        assert(selected_next(c).selected == a.selected);
        assert(selected_prev(b) == (AppView { scroll: 0, ..a }));
        assert(selected_next(c) == (AppView { scroll: 0, ..a }));
    }
}

/// A received message goes to the chat of the peer that sent it: that peer's
/// entry (a new one, at the end, when the peer was not listed) gains exactly
/// the line `(Them, text)` at the end of its messages, and every other entry
/// keeps its messages; the entries keep their places.
pub proof fn law_message_goes_to_its_peer(
    a: AppView,
    peer: PeerKeyView,
    text: Seq<char>,
    now: Seq<char>,
)
    requires
        unique_peers(a.peers),
    ensures
        ({
            let r = apply_spec(a, EventView::MessageReceived { peer, text }, now).peers;
            let line = LineView { who: Who::Them, text, time: now };
            let listed = exists|j: int| 0 <= j < a.peers.len() && a.peers[j].id.bytes == peer.bytes;
            &&& forall|j: int|
                0 <= j < a.peers.len() ==> r[j].id == a.peers[j].id && r[j].messages == (if a.peers[j].id.bytes
                    == peer.bytes {
                    a.peers[j].messages.push(line)
                } else {
                    a.peers[j].messages
                })
            &&& listed ==> r.len() == a.peers.len()
            &&& !listed ==> r.len() == a.peers.len() + 1 && r.last().id == peer && r.last().messages
                == seq![line]
        }),
{
    let r = apply_spec(a, EventView::MessageReceived { peer, text }, now).peers;
    lemma_find_entry_bound(a.peers, peer.bytes);
    match find_entry(a.peers, peer.bytes) {
        Some(i) => {
            assert forall|j: int| 0 <= j < a.peers.len() && j != i implies a.peers[j].id.bytes
                != peer.bytes by {
                if j < i {
                    assert(a.peers[j].id.bytes != a.peers[i].id.bytes);
                } else {
                    assert(a.peers[i].id.bytes != a.peers[j].id.bytes);
                }
            }
        },
        None => {
            lemma_find_entry_none(a.peers, peer.bytes);
        },
    }
}

/// The settings to remember are those the node starts with: when the form is
/// accepted, it always starts the node, and the settings to save (there are
/// some exactly when "remember" is ticked) carry the same nickname, port and
/// addresses as the start command.
pub proof fn law_saved_settings_match_start(a: AppView, fallback: Seq<char>)
    ensures
        match submit_setup_spec(a, fallback).1 {
            Some((CommandView::Start { nick, port, dials }, save)) => {
                &&& (save is Some) == a.setup.remember
                &&& save matches Some(st) ==> st.nick == Some(nick) && st.port == port && st.dial
                    == dials && st.remember
            },
            Some(_) => false,
            None => true,
        },
{
}

} // verus!
