//! What the screens show: their lines of coloured pieces, the windows of the
//! scrolled lists and the placement of boxes. Drawing the pieces with a
//! terminal library is the caller's part.
use vstd::prelude::*;
use crate::ui::app::{App, AppView, Screen, Field, PeerEntryView, LineView, Who, field_at};
use crate::ui::files::{FileBrowser, BrowserView, EntryView, EntryKind};
use crate::ui::theme::{
    ICON_ONLINE, ICON_OFFLINE, ICON_VERIFIED, ICON_WARN, ICON_DIR, ICON_FILE_PLAIN, ICON_EXEC,
    ICON_LINK,
};
use crate::text::{decimal, decimal_string};

verus! {

broadcast use vstd::string::group_string_axioms;

/// The colours of the theme, by role. The standard sixteen terminal colours
/// are meant, so that the interface follows the user's palette.
#[derive(PartialEq, Eq, Structural, Clone, Copy, Debug)]
pub enum Tone {
    /// The terminal's own style.
    Plain,
    /// A calm accent (titles, the active frame, our own input).
    Accent,
    /// Main text, in the terminal's default colour.
    Text,
    /// Muted text (times, hints, system lines).
    Muted,
    /// Online marks.
    Online,
    /// Offline marks.
    Offline,
    /// Warnings, "not compared".
    Warn,
    /// Directories in the browser (as `ls` colours them).
    Dir,
    /// Executables in the browser.
    Exec,
    /// Links in the browser.
    Link,
}

/// A piece of a line, in one style.
pub struct Piece {
    pub text: String,
    pub tone: Tone,
    pub bold: bool,
    /// On the background of the selected row.
    pub highlight: bool,
}

/// A piece as values.
pub struct PieceView {
    pub text: Seq<char>,
    pub tone: Tone,
    pub bold: bool,
    pub highlight: bool,
}

impl View for Piece {
    type V = PieceView;

    open spec fn view(&self) -> PieceView {
        PieceView { text: self.text@, tone: self.tone, bold: self.bold, highlight: self.highlight }
    }
}

/// A line as values.
pub open spec fn line_view(l: Seq<Piece>) -> Seq<PieceView> {
    l.map_values(|p: Piece| p@)
}

/// Lines as values.
pub open spec fn lines_view(ls: Seq<Vec<Piece>>) -> Seq<Seq<PieceView>> {
    ls.map_values(|l: Vec<Piece>| line_view(l@))
}

/// A plain piece of text in a tone.
pub open spec fn pc(text: Seq<char>, tone: Tone) -> PieceView {
    PieceView { text, tone, bold: false, highlight: false }
}

fn piece(text: String, tone: Tone) -> (r: Piece)
    ensures
        r@ == pc(text@, tone),
{
    Piece { text, tone, bold: false, highlight: false }
}

fn lit(text: &str, tone: Tone) -> (r: Piece)
    ensures
        r@ == pc(text@, tone),
{
    piece(text.to_string(), tone)
}

fn join2(a: &str, b: &str) -> (r: String)
    ensures
        r@ == a@ + b@,
{
    let mut s = a.to_string();
    s.append(b);
    s
}

fn join3(a: &str, b: &str, c: &str) -> (r: String)
    ensures
        r@ == a@ + b@ + c@,
{
    let mut s = a.to_string();
    s.append(b);
    s.append(c);
    s
}

proof fn lemma_push_view(ls: Seq<Vec<Piece>>, l: Vec<Piece>)
    ensures
        lines_view(ls.push(l)) == lines_view(ls).push(line_view(l@)),
{
    assert(lines_view(ls.push(l)) =~= lines_view(ls).push(line_view(l@)));
}

// --- the peer list ---------------------------------------------------------

/// The row of a peer: its presence mark, its nickname (on the selection
/// background when selected; muted when offline) and a mark when compared.
pub open spec fn peer_row(p: PeerEntryView, selected: bool) -> Seq<PieceView> {
    let dot = if p.online {
        pc(" "@ + ICON_ONLINE@ + " "@, Tone::Online)
    } else {
        pc(" "@ + ICON_OFFLINE@ + " "@, Tone::Offline)
    };
    let name = if selected {
        PieceView { text: p.nick, tone: Tone::Text, bold: false, highlight: true }
    } else if p.online {
        pc(p.nick, Tone::Text)
    } else {
        pc(p.nick, Tone::Muted)
    };
    let base = seq![dot, name];
    if p.verified {
        base.push(pc(" "@ + ICON_VERIFIED@, Tone::Online))
    } else {
        base
    }
}

/// The rows of the peer list.
pub open spec fn peer_rows_spec(a: AppView) -> Seq<Seq<PieceView>> {
    Seq::new(a.peers.len(), |i: int| peer_row(a.peers[i], i == a.selected))
}

/// The title of the peer list.
pub open spec fn peers_title_spec(a: AppView) -> Seq<char> {
    "пиры ("@ + decimal(a.peers.len()) + ")"@
}

impl App {
    /// The rows of the peer list.
    pub fn peer_rows(&self) -> (r: Vec<Vec<Piece>>)
        ensures
            lines_view(r@) == peer_rows_spec(self@),
    {
        let mut rows: Vec<Vec<Piece>> = Vec::new();
        let mut i: usize = 0;
        while i < self.peers.len()
            invariant
                i <= self@.peers.len(),
                lines_view(rows@) == Seq::new(i as nat, |j: int| peer_row(self@.peers[j], j == self.selected)),
            decreases self@.peers.len() - i,
        {
            let p = &self.peers[i];
            assert(self@.peers[i as int] == p@);
            let mut row: Vec<Piece> = Vec::new();
            if p.online {
                row.push(piece(join3(" ", ICON_ONLINE, " "), Tone::Online));
            } else {
                row.push(piece(join3(" ", ICON_OFFLINE, " "), Tone::Offline));
            }
            if i == self.selected {
                row.push(Piece { text: p.nick.clone(), tone: Tone::Text, bold: false, highlight: true });
            } else if p.online {
                row.push(piece(p.nick.clone(), Tone::Text));
            } else {
                row.push(piece(p.nick.clone(), Tone::Muted));
            }
            if p.verified {
                row.push(piece(join2(" ", ICON_VERIFIED), Tone::Online));
            }
            proof {
                assert(line_view(row@) =~= peer_row(self@.peers[i as int], i == self.selected));
                lemma_push_view(rows@, row);
            }
            rows.push(row);
            i = i + 1;
            proof {
                assert(lines_view(rows@) =~= Seq::new(
                    i as nat,
                    |j: int| peer_row(self@.peers[j], j == self.selected),
                ));
            }
        }
        rows
    }

    /// The title of the peer list, with their number.
    pub fn peers_title(&self) -> (r: String)
        ensures
            r@ == peers_title_spec(self@),
    {
        let n = self.peers.len() as u64;
        join3("пиры (", decimal_string(n).as_str(), ")")
    }
}

// --- the header ------------------------------------------------------------

/// The title of the header: our nickname and fingerprint.
pub open spec fn header_title_spec(a: AppView) -> Seq<char> {
    a.me_nick + " · fp "@ + a.me_fingerprint
}

/// The header line: the selected peer's nickname, whether it is trusted and
/// its fingerprint; or that no peer is selected.
pub open spec fn header_line_spec(a: AppView) -> Seq<PieceView> {
    if a.selected < a.peers.len() {
        let p = a.peers[a.selected as int];
        seq![
            PieceView { text: p.nick, tone: Tone::Plain, bold: true, highlight: false },
            pc("  "@, Tone::Plain),
            if p.verified {
                pc("доверен "@ + ICON_VERIFIED@, Tone::Online)
            } else {
                pc("не сверен"@, Tone::Warn)
            },
            pc("  fp "@ + p.fingerprint, Tone::Muted),
        ]
    } else {
        seq![pc("нет выбранного пира"@, Tone::Muted)]
    }
}

impl App {
    /// The title of the header.
    pub fn header_title(&self) -> (r: String)
        ensures
            r@ == header_title_spec(self@),
    {
        join3(self.me_nick.as_str(), " · fp ", self.me_fingerprint.as_str())
    }

    /// The header line.
    pub fn header_line(&self) -> (r: Vec<Piece>)
        ensures
            line_view(r@) == header_line_spec(self@),
    {
        let mut line: Vec<Piece> = Vec::new();
        if self.selected < self.peers.len() {
            let p = &self.peers[self.selected];
            assert(self@.peers[self.selected as int] == p@);
            line.push(Piece { text: p.nick.clone(), tone: Tone::Plain, bold: true, highlight: false });
            line.push(lit("  ", Tone::Plain));
            if p.verified {
                line.push(piece(join2("доверен ", ICON_VERIFIED), Tone::Online));
            } else {
                line.push(lit("не сверен", Tone::Warn));
            }
            line.push(piece(join2("  fp ", p.fingerprint.as_str()), Tone::Muted));
        } else {
            line.push(lit("нет выбранного пира", Tone::Muted));
        }
        assert(line_view(line@) =~= header_line_spec(self@));
        line
    }
}

// --- the chat --------------------------------------------------------------

/// A chat line: the time, who wrote it, and the text.
pub open spec fn chat_row(l: LineView) -> Seq<PieceView> {
    let prefix = match l.who {
        Who::Me => pc("> "@, Tone::Accent),
        Who::Them => pc("< "@, Tone::Text),
        Who::System => pc("* "@, Tone::Muted),
    };
    seq![pc(l.time + " "@, Tone::Muted), prefix, pc(l.text, Tone::Text)]
}

/// The hint shown while no peer is selected.
pub open spec fn waiting_text() -> Seq<char> {
    "Ждём пиров. Они появятся автоматически (mDNS) или после /dial <адрес>."@
}

/// The lines of the chat with the selected peer, or the waiting hint.
pub open spec fn chat_rows_spec(a: AppView) -> Seq<Seq<PieceView>> {
    if a.selected < a.peers.len() {
        let ms = a.peers[a.selected as int].messages;
        Seq::new(ms.len(), |i: int| chat_row(ms[i]))
    } else {
        seq![seq![pc(waiting_text(), Tone::Muted)]]
    }
}

fn chat_row_of(l: &crate::ui::app::ChatLine) -> (r: Vec<Piece>)
    ensures
        line_view(r@) == chat_row(l@),
{
    let mut row: Vec<Piece> = Vec::new();
    row.push(piece(join2(l.time.as_str(), " "), Tone::Muted));
    match l.who {
        Who::Me => row.push(lit("> ", Tone::Accent)),
        Who::Them => row.push(lit("< ", Tone::Text)),
        Who::System => row.push(lit("* ", Tone::Muted)),
    }
    row.push(piece(l.text.clone(), Tone::Text));
    assert(line_view(row@) =~= chat_row(l@));
    row
}

impl App {
    /// The lines of the chat pane.
    pub fn chat_rows(&self) -> (r: Vec<Vec<Piece>>)
        ensures
            lines_view(r@) == chat_rows_spec(self@),
    {
        let mut rows: Vec<Vec<Piece>> = Vec::new();
        if self.selected < self.peers.len() {
            let ms = &self.peers[self.selected].messages;
            let ghost mv = self@.peers[self.selected as int].messages;
            assert(mv == ms@.map_values(|l: crate::ui::app::ChatLine| l@));
            let mut i: usize = 0;
            while i < ms.len()
                invariant
                    i <= ms@.len(),
                    mv == ms@.map_values(|l: crate::ui::app::ChatLine| l@),
                    lines_view(rows@) == Seq::new(i as nat, |j: int| chat_row(mv[j])),
                decreases ms@.len() - i,
            {
                let row = chat_row_of(&ms[i]);
                proof {
                    lemma_push_view(rows@, row);
                }
                rows.push(row);
                i = i + 1;
                proof {
                    assert(lines_view(rows@) =~= Seq::new(i as nat, |j: int| chat_row(mv[j])));
                }
            }
        } else {
            rows.push(single(lit("Ждём пиров. Они появятся автоматически (mDNS) или после /dial <адрес>.", Tone::Muted)));
            assert(lines_view(rows@) =~= chat_rows_spec(self@));
        }
        rows
    }
}

/// The first chat line shown in a pane of `height` rows (two of them frame)
/// holding `total` lines, scrolled `scroll` lines up from the bottom; and
/// whether the pane shows that it is scrolled.
pub open spec fn chat_window_spec(total: usize, height: u16, scroll: usize) -> (usize, bool) {
    let cap = height.saturating_sub(2) as usize;
    let max_start = total.saturating_sub(if cap >= 1 { cap } else { 1 });
    (max_start.saturating_sub(scroll), scroll > 0 && max_start > 0)
}

/// The window of the chat pane.
pub fn chat_window(total: usize, height: u16, scroll: usize) -> (r: (usize, bool))
    ensures
        r == chat_window_spec(total, height, scroll),
{
    let cap = height.saturating_sub(2) as usize;
    let max_start = total.saturating_sub(if cap >= 1 { cap } else { 1 });
    (max_start.saturating_sub(scroll), scroll > 0 && max_start > 0)
}

/// The title of the chat pane.
pub open spec fn chat_title_spec(scrolled: bool) -> Seq<char> {
    if scrolled {
        "чат [↑]"@
    } else {
        "чат"@
    }
}

/// The title of the chat pane.
pub fn chat_title(scrolled: bool) -> (r: String)
    ensures
        r@ == chat_title_spec(scrolled),
{
    if scrolled {
        "чат [↑]".to_string()
    } else {
        "чат".to_string()
    }
}

/// The column of the cursor in the input box at `x` of width `w`: after the
/// text (its length taken modulo 2^16), but not past the frame.
pub open spec fn cursor_column_spec(x: u16, w: u16, input_len: usize) -> u16 {
    let after = x + 1 + (input_len % 0x10000);
    let last = x + w - 2;
    (if after <= last {
        after
    } else {
        last
    }) as u16
}

/// The column of the cursor in the input box.
pub fn cursor_column(x: u16, w: u16, input_len: usize) -> (r: u16)
    requires
        x + w <= u16::MAX,
        x + w >= 2,
        x + 1 + (input_len % 0x10000) <= u16::MAX,
    ensures
        r == cursor_column_spec(x, w, input_len),
{
    let len: u16 = (input_len % 0x10000) as u16;
    let after = x + 1 + len;
    let last = x + w - 2;
    if after <= last {
        after
    } else {
        last
    }
}

// --- the status line -------------------------------------------------------

/// The key hints of the status line.
pub open spec fn hints_text() -> Seq<char> {
    "Tab пир · ^V сверить · ^F файл · PgUp/Dn скролл · ? помощь"@
}

/// The status line: the key hints, the status and, when known, the first
/// listening address.
pub open spec fn status_line_spec(a: AppView) -> Seq<PieceView> {
    let base = seq![pc(hints_text(), Tone::Muted), pc("  "@, Tone::Plain), pc(a.status, Tone::Text)];
    if a.listen_addrs.len() > 0 {
        base.push(pc("  "@ + a.listen_addrs[0], Tone::Muted))
    } else {
        base
    }
}

impl App {
    /// The status line.
    pub fn status_line(&self) -> (r: Vec<Piece>)
        ensures
            line_view(r@) == status_line_spec(self@),
    {
        let mut line: Vec<Piece> = Vec::new();
        line.push(lit("Tab пир · ^V сверить · ^F файл · PgUp/Dn скролл · ? помощь", Tone::Muted));
        line.push(lit("  ", Tone::Plain));
        line.push(piece(self.status.clone(), Tone::Text));
        if self.listen_addrs.len() > 0 {
            assert(self@.listen_addrs[0] == self.listen_addrs@[0]@);
            line.push(piece(join2("  ", self.listen_addrs[0].as_str()), Tone::Muted));
        }
        assert(line_view(line@) =~= status_line_spec(self@));
        line
    }
}

// --- the start form --------------------------------------------------------

/// A text field of the form: a marker and a caret when it is the current
/// one, and the placeholder (dimmed) when it is empty.
pub open spec fn field_row(label: Seq<char>, value: Seq<char>, active: bool, placeholder: Seq<char>) -> Seq<
    PieceView,
> {
    let marker = if active {
        "> "@
    } else {
        "  "@
    };
    let shown = if value.len() == 0 {
        placeholder
    } else {
        value
    };
    let tone = if value.len() == 0 {
        Tone::Offline
    } else {
        Tone::Text
    };
    let caret = if active {
        "_"@
    } else {
        ""@
    };
    seq![
        pc(marker, Tone::Accent),
        pc(label + "  "@, if active { Tone::Accent } else { Tone::Muted }),
        pc("[ "@ + shown + caret + " ]"@, tone),
    ]
}

/// The checkbox row of the form.
pub open spec fn checkbox_row(checked: bool, active: bool) -> Seq<PieceView> {
    let marker = if active {
        "> "@
    } else {
        "  "@
    };
    let mark = if checked {
        "[x]"@
    } else {
        "[ ]"@
    };
    seq![
        pc(marker, Tone::Accent),
        pc(mark + " Запоминать настройки"@, if active { Tone::Accent } else { Tone::Muted }),
    ]
}

/// The lines of the start form.
pub open spec fn setup_rows_spec(a: AppView) -> Seq<Seq<PieceView>> {
    let f = a.setup;
    let cur = field_at(f.field);
    let top = seq![
        seq![PieceView { text: "l0kus"@, tone: Tone::Accent, bold: true, highlight: false }],
        seq![pc("защищённый p2p-мессенджер · olm e2e"@, Tone::Muted)],
        seq![pc("fp "@ + a.me_fingerprint, Tone::Muted)],
        Seq::<PieceView>::empty(),
        field_row("Ник  "@, f.nick, cur == Field::Nick, "имя пользователя ОС"@),
        field_row("Порт "@, f.port, cur == Field::Port, "случайный"@),
        field_row("Адрес"@, f.dial, cur == Field::Dial, "необязательно"@),
        checkbox_row(f.remember, cur == Field::Remember),
        Seq::<PieceView>::empty(),
    ];
    let with_error = match f.error {
        Some(err) => top.push(seq![pc(ICON_WARN@ + " "@ + err, Tone::Warn)]),
        None => top,
    };
    with_error.push(seq![pc("Tab — поле · Space — галка · Enter — запуск · Esc — выход"@, Tone::Muted)])
}

fn field_row_of(label: &str, value: &str, active: bool, placeholder: &str) -> (r: Vec<Piece>)
    ensures
        line_view(r@) == field_row(label@, value@, active, placeholder@),
{
    let mut row: Vec<Piece> = Vec::new();
    row.push(lit(if active { "> " } else { "  " }, Tone::Accent));
    row.push(piece(join2(label, "  "), if active { Tone::Accent } else { Tone::Muted }));
    let empty = value.unicode_len() == 0;
    let shown = if empty { placeholder } else { value };
    let mut boxed = join3("[ ", shown, if active { "_" } else { "" });
    boxed.append(" ]");
    row.push(piece(boxed, if empty { Tone::Offline } else { Tone::Text }));
    assert(line_view(row@) =~= field_row(label@, value@, active, placeholder@));
    row
}

fn checkbox_row_of(checked: bool, active: bool) -> (r: Vec<Piece>)
    ensures
        line_view(r@) == checkbox_row(checked, active),
{
    let mut row: Vec<Piece> = Vec::new();
    row.push(lit(if active { "> " } else { "  " }, Tone::Accent));
    row.push(
        piece(
            join2(if checked { "[x]" } else { "[ ]" }, " Запоминать настройки"),
            if active { Tone::Accent } else { Tone::Muted },
        ),
    );
    assert(line_view(row@) =~= checkbox_row(checked, active));
    row
}

fn single(p: Piece) -> (r: Vec<Piece>)
    ensures
        line_view(r@) == seq![p@],
{
    let mut row: Vec<Piece> = Vec::new();
    row.push(p);
    assert(line_view(row@) =~= seq![p@]);
    row
}

impl App {
    /// The lines of the start form.
    pub fn setup_rows(&self) -> (r: Vec<Vec<Piece>>)
        requires
            self.setup.field < 4,
        ensures
            lines_view(r@) == setup_rows_spec(self@),
    {
        let f = &self.setup;
        let cur = f.current();
        let mut rows: Vec<Vec<Piece>> = Vec::new();
        rows.push(single(Piece { text: "l0kus".to_string(), tone: Tone::Accent, bold: true, highlight: false }));
        rows.push(single(lit("защищённый p2p-мессенджер · olm e2e", Tone::Muted)));
        rows.push(single(piece(join2("fp ", self.me_fingerprint.as_str()), Tone::Muted)));
        rows.push(Vec::new());
        rows.push(field_row_of("Ник  ", f.nick.as_str(), cur == Field::Nick, "имя пользователя ОС"));
        rows.push(field_row_of("Порт ", f.port.as_str(), cur == Field::Port, "случайный"));
        rows.push(field_row_of("Адрес", f.dial.as_str(), cur == Field::Dial, "необязательно"));
        rows.push(checkbox_row_of(f.remember, cur == Field::Remember));
        rows.push(Vec::new());
        match &f.error {
            Some(err) => {
                rows.push(single(piece(join3(ICON_WARN, " ", err.as_str()), Tone::Warn)));
            },
            None => {},
        }
        rows.push(single(lit("Tab — поле · Space — галка · Enter — запуск · Esc — выход", Tone::Muted)));
        proof {
            assert(line_view(Seq::<Piece>::empty()) =~= Seq::<PieceView>::empty());
        }
        assert(lines_view(rows@) =~= setup_rows_spec(self@));
        rows
    }
}

// --- the file browser ------------------------------------------------------

/// The first entry shown in a list of `cap` rows (at least one) around the
/// selection.
pub open spec fn browser_start_spec(selected: usize, total: usize, inner: usize) -> usize {
    let cap = if inner >= 1 {
        inner
    } else {
        1
    };
    let a = selected.saturating_sub(cap / 2);
    let b = total.saturating_sub(cap);
    if a <= b {
        a
    } else {
        b
    }
}

/// The colour and icon of an entry kind.
pub open spec fn kind_tone(k: EntryKind) -> Tone {
    match k {
        EntryKind::Dir => Tone::Dir,
        EntryKind::Exec => Tone::Exec,
        EntryKind::Link => Tone::Link,
        EntryKind::File => Tone::Text,
    }
}

/// The icon of an entry kind.
pub open spec fn kind_icon(k: EntryKind) -> Seq<char> {
    match k {
        EntryKind::Dir => ICON_DIR@,
        EntryKind::Exec => ICON_EXEC@,
        EntryKind::Link => ICON_LINK@,
        EntryKind::File => ICON_FILE_PLAIN@,
    }
}

/// The row of an entry: a marker when selected, then its icon and name in
/// the colour of its kind (directories bold).
pub open spec fn entry_row(e: EntryView, selected: bool) -> Seq<PieceView> {
    seq![
        pc(if selected { "> "@ } else { "  "@ }, Tone::Accent),
        PieceView {
            text: kind_icon(e.kind) + "  "@ + e.name,
            tone: kind_tone(e.kind),
            bold: e.kind == EntryKind::Dir,
            highlight: selected,
        },
    ]
}

/// The rows of the browser list in a frame of `inner` rows: the error, or a
/// note that the directory is empty, then the window of entries around the
/// selection.
pub open spec fn browser_rows_spec(b: BrowserView, inner: usize) -> Seq<Seq<PieceView>> {
    let head = match b.error {
        Some(err) => seq![seq![pc("⚠ "@ + err, Tone::Warn)]],
        None => if b.entries.len() == 0 {
            seq![seq![pc(ICON_WARN@ + " (пусто)"@, Tone::Muted)]]
        } else {
            Seq::<Seq<PieceView>>::empty()
        },
    };
    let cap = if inner >= 1 {
        inner
    } else {
        1
    };
    let start = browser_start_spec(b.selected, b.entries.len() as usize, inner) as int;
    let end = if start + cap <= b.entries.len() {
        start + cap
    } else {
        b.entries.len() as int
    };
    head + Seq::new(
        (end - start) as nat,
        |i: int| entry_row(b.entries[start + i], start + i == b.selected),
    )
}

/// The title of the browser.
pub open spec fn browser_title_spec(b: BrowserView) -> Seq<char> {
    "выбор файла · "@ + b.cwd
}

/// The key hint under the browser.
pub open spec fn browser_hint_text() -> Seq<char> {
    " ↑↓ — выбор · Enter — войти/отправить · Backspace — назад · Esc — отмена"@
}

/// The key hint under the browser.
pub fn browser_hint() -> (r: Piece)
    ensures
        r@ == pc(browser_hint_text(), Tone::Muted),
{
    lit(" ↑↓ — выбор · Enter — войти/отправить · Backspace — назад · Esc — отмена", Tone::Muted)
}

fn entry_row_of(e: &crate::ui::files::FileEntry, selected: bool) -> (r: Vec<Piece>)
    ensures
        line_view(r@) == entry_row(e@, selected),
{
    let mut row: Vec<Piece> = Vec::new();
    row.push(lit(if selected { "> " } else { "  " }, Tone::Accent));
    let (tone, icon) = match e.kind {
        EntryKind::Dir => (Tone::Dir, ICON_DIR),
        EntryKind::Exec => (Tone::Exec, ICON_EXEC),
        EntryKind::Link => (Tone::Link, ICON_LINK),
        EntryKind::File => (Tone::Text, ICON_FILE_PLAIN),
    };
    row.push(
        Piece {
            text: join3(icon, "  ", e.name.as_str()),
            tone,
            bold: e.kind == EntryKind::Dir,
            highlight: selected,
        },
    );
    assert(line_view(row@) =~= entry_row(e@, selected));
    row
}

impl FileBrowser {
    /// The first entry shown in a frame of `inner` rows.
    pub fn window_start(&self, inner: usize) -> (r: usize)
        ensures
            r == browser_start_spec(self.selected, self.entries@.len() as usize, inner),
    {
        let cap = if inner >= 1 {
            inner
        } else {
            1
        };
        let a = self.selected.saturating_sub(cap / 2);
        let b = self.entries.len().saturating_sub(cap);
        if a <= b {
            a
        } else {
            b
        }
    }

    /// The rows of the browser list in a frame of `inner` rows.
    pub fn rows(&self, inner: usize) -> (r: Vec<Vec<Piece>>)
        ensures
            lines_view(r@) == browser_rows_spec(self@, inner),
    {
        let mut rows: Vec<Vec<Piece>> = Vec::new();
        match &self.error {
            Some(err) => {
                rows.push(single(piece(join2("⚠ ", err.as_str()), Tone::Warn)));
            },
            None => {
                if self.entries.len() == 0 {
                    rows.push(single(piece(join2(ICON_WARN, " (пусто)"), Tone::Muted)));
                }
            },
        }
        let ghost head = lines_view(rows@);
        let cap = if inner >= 1 {
            inner
        } else {
            1
        };
        let start = self.window_start(inner);
        let n = self.entries.len();
        let end = if start <= n && cap <= n - start {
            start + cap
        } else {
            n
        };
        let ghost es = self@.entries;
        let mut i: usize = start;
        while i < end
            invariant
                start <= i <= end <= n,
                n == self.entries@.len(),
                es == self@.entries,
                lines_view(rows@) == head + Seq::new(
                    (i - start) as nat,
                    |j: int| entry_row(es[start + j], start + j == self.selected),
                ),
            decreases end - i,
        {
            assert(es[i as int] == self.entries@[i as int]@);
            let row = entry_row_of(&self.entries[i], i == self.selected);
            proof {
                lemma_push_view(rows@, row);
            }
            rows.push(row);
            i = i + 1;
            proof {
                assert(lines_view(rows@) =~= head + Seq::new(
                    (i - start) as nat,
                    |j: int| entry_row(es[start + j], start + j == self.selected),
                ));
            }
        }
        assert(lines_view(rows@) =~= browser_rows_spec(self@, inner));
        rows
    }

    /// The title of the browser: the current directory.
    pub fn title(&self) -> (r: String)
        ensures
            r@ == browser_title_spec(self@),
    {
        join2("выбор файла · ", self.cwd.as_str())
    }
}

// --- the help overlay ------------------------------------------------------

/// The text padded with spaces to at least `width` characters.
pub open spec fn pad_to(s: Seq<char>, width: nat) -> Seq<char> {
    if s.len() >= width {
        s
    } else {
        s + Seq::new((width - s.len()) as nat, |i: int| ' ')
    }
}

/// The keys and what they do, as the help lists them.
pub open spec fn help_entries() -> Seq<(Seq<char>, Seq<char>)> {
    seq![
        ("Enter"@, "отправить сообщение выбранному пиру"@),
        ("Tab / ↑ ↓"@, "переключение между пирами"@),
        ("Ctrl+V"@, "пометить пира сверенным (fingerprint)"@),
        ("Ctrl+F"@, "выбрать файл на отправку (браузер)"@),
        ("Ctrl+R"@, "пересканировать LAN (поиск пиров)"@),
        ("/dial <адрес>"@, "подключиться к пиру вручную"@),
        ("/file <путь>"@, "отправить файл по пути"@),
        ("PgUp / PgDn"@, "прокрутка истории чата"@),
        ("? / F1"@, "показать/скрыть эту справку"@),
        ("Esc / Ctrl+C"@, "выход"@),
    ]
}

/// The lines of the help: each key padded to fourteen characters, then what
/// it does; a blank line; and how to close it.
pub open spec fn help_rows_spec() -> Seq<Seq<PieceView>> {
    let es = help_entries();
    Seq::new(
        es.len(),
        |i: int| seq![pc(pad_to(es[i].0, 14), Tone::Accent), pc(es[i].1, Tone::Text)],
    ) + seq![Seq::<PieceView>::empty(), seq![pc("любая клавиша — закрыть"@, Tone::Muted)]]
}

fn padded(s: &str, width: usize) -> (r: String)
    ensures
        r@ == pad_to(s@, width as nat),
{
    let mut out = s.to_string();
    let n = s.unicode_len();
    let mut k: usize = n;
    while k < width
        invariant
            n == s@.len(),
            k >= n,
            k <= width || k == n,
            out@ == s@ + Seq::new((k - n) as nat, |i: int| ' '),
        decreases width - k,
    {
        out.append(" ");
        proof {
            reveal_strlit(" ");
            assert(s@ + Seq::new((k - n) as nat, |i: int| ' ') + " "@ =~= s@ + Seq::new(
                (k + 1 - n) as nat,
                |i: int| ' ',
            ));
        }
        k = k + 1;
    }
    assert(n >= width ==> out@ =~= s@);
    out
}

fn help_row(key: &str, what: &str) -> (r: Vec<Piece>)
    ensures
        line_view(r@) == seq![pc(pad_to(key@, 14), Tone::Accent), pc(what@, Tone::Text)],
{
    let mut row: Vec<Piece> = Vec::new();
    row.push(piece(padded(key, 14), Tone::Accent));
    row.push(lit(what, Tone::Text));
    assert(line_view(row@) =~= seq![pc(pad_to(key@, 14), Tone::Accent), pc(what@, Tone::Text)]);
    row
}

/// The lines of the help overlay.
pub fn help_rows() -> (r: Vec<Vec<Piece>>)
    ensures
        lines_view(r@) == help_rows_spec(),
{
    let mut rows: Vec<Vec<Piece>> = Vec::new();
    rows.push(help_row("Enter", "отправить сообщение выбранному пиру"));
    rows.push(help_row("Tab / ↑ ↓", "переключение между пирами"));
    rows.push(help_row("Ctrl+V", "пометить пира сверенным (fingerprint)"));
    rows.push(help_row("Ctrl+F", "выбрать файл на отправку (браузер)"));
    rows.push(help_row("Ctrl+R", "пересканировать LAN (поиск пиров)"));
    rows.push(help_row("/dial <адрес>", "подключиться к пиру вручную"));
    rows.push(help_row("/file <путь>", "отправить файл по пути"));
    rows.push(help_row("PgUp / PgDn", "прокрутка истории чата"));
    rows.push(help_row("? / F1", "показать/скрыть эту справку"));
    rows.push(help_row("Esc / Ctrl+C", "выход"));
    rows.push(Vec::new());
    rows.push(single(lit("любая клавиша — закрыть", Tone::Muted)));
    proof {
        assert(line_view(Seq::<Piece>::empty()) =~= Seq::<PieceView>::empty());
    }
    assert(lines_view(rows@) =~= help_rows_spec());
    rows
}

// --- layout ----------------------------------------------------------------

/// A rectangle of the screen, in cells.
#[derive(PartialEq, Eq, Structural, Clone, Copy, Debug)]
pub struct Area {
    pub x: u16,
    pub y: u16,
    pub width: u16,
    pub height: u16,
}

/// An area that does not run past the largest coordinate.
pub open spec fn area_wf(a: Area) -> bool {
    a.x + a.width <= u16::MAX && a.y + a.height <= u16::MAX
}

/// A box of the given size (at most the area's) in the middle of the area.
pub open spec fn centered_spec(width: u16, height: u16, area: Area) -> Area {
    let w = if width <= area.width {
        width
    } else {
        area.width
    };
    let h = if height <= area.height {
        height
    } else {
        area.height
    };
    Area {
        x: (area.x + (area.width - w) / 2) as u16,
        y: (area.y + (area.height - h) / 2) as u16,
        width: w,
        height: h,
    }
}

/// A box of the given size (at most the area's) in the middle of the area.
pub fn centered_rect(width: u16, height: u16, area: Area) -> (r: Area)
    requires
        area_wf(area),
    ensures
        r == centered_spec(width, height, area),
        area_wf(r),
        area.x <= r.x && r.x + r.width <= area.x + area.width,
        area.y <= r.y && r.y + r.height <= area.y + area.height,
{
    let w = if width <= area.width {
        width
    } else {
        area.width
    };
    let h = if height <= area.height {
        height
    } else {
        area.height
    };
    let x = area.x + (area.width - w) / 2;
    let y = area.y + (area.height - h) / 2;
    Area { x, y, width: w, height: h }
}

/// What covers the chat screen.
#[derive(PartialEq, Eq, Structural, Clone, Copy, Debug)]
pub enum Overlay {
    /// The start form (instead of the chat).
    Setup,
    /// Nothing: the chat alone.
    Chat,
    /// The chat with the file browser over it.
    Browser,
    /// The chat with the help over it.
    Help,
}

/// What the screen shows: the start form, or the chat with the browser
/// (first) or the help over it.
pub open spec fn overlay_spec(a: AppView) -> Overlay {
    match a.screen {
        Screen::Setup => Overlay::Setup,
        Screen::Chat => if a.browser is Some {
            Overlay::Browser
        } else if a.show_help {
            Overlay::Help
        } else {
            Overlay::Chat
        },
    }
}

impl App {
    /// What the screen shows.
    pub fn overlay(&self) -> (r: Overlay)
        ensures
            r == overlay_spec(self@),
    {
        match self.screen {
            Screen::Setup => Overlay::Setup,
            Screen::Chat => if self.file_browser.is_some() {
                Overlay::Browser
            } else if self.show_help {
                Overlay::Help
            } else {
                Overlay::Chat
            },
        }
    }
}

/// The header shows whether the selected peer is trusted: its trust piece is
/// "доверен" with the verified mark (in the online tone) when the peer was
/// verified, and "не сверен" (in the warning tone) when it was not; so two
/// states that differ only in that flag give different headers.
pub proof fn law_header_shows_trust(a: AppView)
    requires
        a.selected < a.peers.len(),
    ensures
        ({
            let p = a.peers[a.selected as int];
            let h = header_line_spec(a);
            &&& h.len() == 4
            &&& h[0].text == p.nick
            &&& h[2] == (if p.verified {
                PieceView { text: "доверен "@ + ICON_VERIFIED@, tone: Tone::Online, bold: false, highlight: false }
            } else {
                PieceView { text: "не сверен"@, tone: Tone::Warn, bold: false, highlight: false }
            })
            &&& h[3].text == "  fp "@ + p.fingerprint
        }),
        ({
            let i = a.selected as int;
            let p = a.peers[i];
            let yes = AppView { peers: a.peers.update(i, PeerEntryView { verified: true, ..p }), ..a };
            let no = AppView { peers: a.peers.update(i, PeerEntryView { verified: false, ..p }), ..a };
            header_line_spec(yes)[2].tone == Tone::Online && header_line_spec(no)[2].tone == Tone::Warn
        }),
{
}

} // verus!
