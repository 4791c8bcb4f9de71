//! A small file browser for choosing a file to send.
//!
//! It moves through directories; directories, executables and links are
//! marked like `ls` does. Listing a directory is the caller's part: it hands
//! the raw entries over, and the browser filters, classifies and orders them.
use vstd::prelude::*;
use crate::peer::{PeerKey, PeerKeyView};
use crate::file_transfer::path_file_name;
use crate::text::chars_of;

verus! {

broadcast use vstd::string::group_string_axioms;

/// The kind of a directory entry (for marking it as a terminal would).
#[derive(PartialEq, Eq, Structural, Clone, Copy, Debug)]
pub enum EntryKind {
    Dir,
    Exec,
    Link,
    File,
}

/// An entry of the current directory.
pub struct FileEntry {
    pub name: String,
    pub path: String,
    pub kind: EntryKind,
    /// Whether one can enter it (a directory, or a link to one).
    pub is_dir: bool,
}

/// An entry as values.
pub struct EntryView {
    pub name: Seq<char>,
    pub path: Seq<char>,
    pub kind: EntryKind,
    pub is_dir: bool,
}

impl View for FileEntry {
    type V = EntryView;

    open spec fn view(&self) -> EntryView {
        EntryView { name: self.name@, path: self.path@, kind: self.kind, is_dir: self.is_dir }
    }
}

/// The state of the browser: the peer to send to, the current directory and
/// its entries.
pub struct FileBrowser {
    pub peer: PeerKey,
    pub cwd: String,
    pub entries: Vec<FileEntry>,
    pub selected: usize,
    pub error: Option<String>,
    /// After going up, the name of the directory that was left (to select it).
    pub reselect: Option<String>,
}

/// The browser as values.
pub struct BrowserView {
    pub peer: PeerKeyView,
    pub cwd: Seq<char>,
    pub entries: Seq<EntryView>,
    pub selected: usize,
    pub error: Option<Seq<char>>,
    pub reselect: Option<Seq<char>>,
}

impl View for FileBrowser {
    type V = BrowserView;

    open spec fn view(&self) -> BrowserView {
        BrowserView {
            peer: self.peer@,
            cwd: self.cwd@,
            entries: self.entries@.map_values(|e: FileEntry| e@),
            selected: self.selected,
            error: match self.error {
                Some(e) => Some(e@),
                None => None,
            },
            reselect: match self.reselect {
                Some(n) => Some(n@),
                None => None,
            },
        }
    }
}


/// A directory entry as the caller read it.
pub struct RawEntry {
    pub name: String,
    pub path: String,
    /// It is a symbolic link.
    pub is_link: bool,
    /// It is a directory, or a link to one.
    pub is_dir: bool,
    /// Some execute permission bit is set.
    pub is_exec: bool,
}

/// The text `s` in lower case, as `str::to_lowercase` gives it.
pub uninterp spec fn lowercase(s: Seq<char>) -> Seq<char>;

/// Calls `str::to_lowercase`; the result is a fixed function of the text.
#[verifier::external_body]
fn to_lowercase(s: &str) -> (r: String)
    ensures
        r@ == lowercase(s@),
{
    s.to_lowercase()
}

/// The parent directory, as `Path::parent` gives it.
pub uninterp spec fn path_parent(p: Seq<char>) -> Option<Seq<char>>;

/// Calls `Path::parent` and converts the result to text with
/// `to_string_lossy`; the result is a fixed function of the path.
#[verifier::external_body]
fn parent_of(p: &str) -> (r: Option<String>)
    ensures
        match r {
            Some(q) => path_parent(p@) == Some(q@),
            None => path_parent(p@) is None,
        },
{
    std::path::Path::new(p).parent().map(|q| q.to_string_lossy().into_owned())
}

/// The lexicographic order of texts (by characters, which is the order of
/// their UTF-8 bytes).
pub open spec fn text_lt(a: Seq<char>, b: Seq<char>) -> bool
    decreases a.len(),
{
    if a.len() == 0 {
        b.len() > 0
    } else if b.len() == 0 {
        false
    } else if a[0] != b[0] {
        a[0] < b[0]
    } else {
        text_lt(a.drop_first(), b.drop_first())
    }
}

proof fn lemma_text_lt_trans(a: Seq<char>, b: Seq<char>, c: Seq<char>)
    requires
        text_lt(a, b),
        text_lt(b, c),
    ensures
        text_lt(a, c),
    decreases a.len(),
{
    if a.len() > 0 && b.len() > 0 && c.len() > 0 && a[0] == b[0] && b[0] == c[0] {
        lemma_text_lt_trans(a.drop_first(), b.drop_first(), c.drop_first());
    }
}

proof fn lemma_text_lt_total(a: Seq<char>, b: Seq<char>)
    ensures
        text_lt(a, b) || text_lt(b, a) || a == b,
        !(text_lt(a, b) && text_lt(b, a)),
    decreases a.len(),
{
    if a.len() > 0 && b.len() > 0 {
        if a[0] == b[0] {
            lemma_text_lt_total(a.drop_first(), b.drop_first());
            if a.drop_first() == b.drop_first() {
                assert(a =~= seq![a[0]] + a.drop_first());
                assert(b =~= seq![b[0]] + b.drop_first());
            }
        }
    } else if a.len() == 0 && b.len() == 0 {
        assert(a =~= b);
    }
}

/// Whether the text `a` comes before `b`.
fn text_before(a: &[char], b: &[char]) -> (r: bool)
    ensures
        r == text_lt(a@, b@),
{
    let mut i: usize = 0;
    assert(a@.skip(0) =~= a@);
    assert(b@.skip(0) =~= b@);
    while i < a.len() && i < b.len() && a[i] == b[i]
        invariant
            i <= a@.len(),
            i <= b@.len(),
            text_lt(a@, b@) == text_lt(a@.skip(i as int), b@.skip(i as int)),
        decreases a@.len() - i,
    {
        proof {
            assert(a@.skip(i as int).drop_first() =~= a@.skip(i + 1));
            assert(b@.skip(i as int).drop_first() =~= b@.skip(i + 1));
        }
        i = i + 1;
    }
    proof {
        if i < a@.len() {
            assert(a@.skip(i as int)[0] == a@[i as int]);
        }
        if i < b@.len() {
            assert(b@.skip(i as int)[0] == b@[i as int]);
        }
    }
    if i == a.len() {
        i < b.len()
    } else if i == b.len() {
        false
    } else {
        a[i] < b[i]
    }
}

/// The order of the listing: directories first, then by name without regard
/// to case.
pub open spec fn entry_lt(a: EntryView, b: EntryView) -> bool {
    ||| (a.is_dir && !b.is_dir)
    ||| (a.is_dir == b.is_dir && text_lt(lowercase(a.name), lowercase(b.name)))
}

proof fn lemma_entry_lt(a: EntryView, b: EntryView, c: EntryView)
    ensures
        entry_lt(a, b) && entry_lt(b, c) ==> entry_lt(a, c),
        entry_lt(a, b) && !entry_lt(c, b) ==> entry_lt(a, c),
        !(entry_lt(a, b) && entry_lt(b, a)),
{
    lemma_text_lt_total(lowercase(a.name), lowercase(b.name));
    lemma_text_lt_total(lowercase(b.name), lowercase(c.name));
    lemma_text_lt_total(lowercase(a.name), lowercase(c.name));
    if text_lt(lowercase(a.name), lowercase(b.name)) && text_lt(lowercase(b.name), lowercase(c.name)) {
        lemma_text_lt_trans(lowercase(a.name), lowercase(b.name), lowercase(c.name));
    }
    if text_lt(lowercase(a.name), lowercase(b.name)) && text_lt(lowercase(c.name), lowercase(b.name)) {
    }
    if text_lt(lowercase(a.name), lowercase(b.name)) && lowercase(c.name) == lowercase(b.name) {
    }
    if text_lt(lowercase(a.name), lowercase(b.name)) && text_lt(lowercase(b.name), lowercase(c.name)) {
    }
}

/// How an entry is shown: a link, else a directory, else an executable, else
/// a plain file.
pub open spec fn classify(r: RawEntry) -> EntryView {
    EntryView {
        name: r.name@,
        path: r.path@,
        kind: if r.is_link {
            EntryKind::Link
        } else if r.is_dir {
            EntryKind::Dir
        } else if r.is_exec {
            EntryKind::Exec
        } else {
            EntryKind::File
        },
        is_dir: r.is_dir,
    }
}

/// Hidden entries (a name starting with a dot) are left out, as `ls` does
/// without `-a`.
pub open spec fn visible(raw: Seq<RawEntry>) -> Seq<EntryView>
    decreases raw.len(),
{
    if raw.len() == 0 {
        Seq::empty()
    } else {
        let rest = visible(raw.drop_last());
        let n = raw.last().name@;
        if n.len() > 0 && n[0] == '.' {
            rest
        } else {
            rest.push(classify(raw.last()))
        }
    }
}

/// `out` is `s` in the listing order, keeping the order of `s` among entries
/// that compare equal: through the reordering `perm` (each position of `s`
/// used once), every entry either comes strictly before the later ones, or
/// compares equal and came earlier in `s`.
pub open spec fn stable_sorted(s: Seq<EntryView>, out: Seq<EntryView>, perm: Seq<int>) -> bool {
    &&& out.len() == s.len()
    &&& perm.len() == s.len()
    &&& forall|k: int| 0 <= k < perm.len() ==> 0 <= #[trigger] perm[k] < s.len() && out[k] == s[perm[k]]
    &&& forall|k: int, l: int| 0 <= k < l < perm.len() ==> #[trigger] perm[k] != #[trigger] perm[l]
    &&& forall|k: int, l: int|
        0 <= k < l < out.len() ==> entry_lt(#[trigger] out[k], #[trigger] out[l]) || (!entry_lt(
            out[l],
            out[k],
        ) && perm[k] < perm[l])
}


/// The entries as values.
pub open spec fn entry_views(v: Seq<FileEntry>) -> Seq<EntryView> {
    v.map_values(|e: FileEntry| e@)
}

/// `out` is `s` put in the listing order, stably.
pub open spec fn in_listing_order(s: Seq<EntryView>, out: Seq<EntryView>) -> bool {
    exists|perm: Seq<int>| #[trigger] stable_sorted(s, out, perm)
}

/// The shown entries of a directory listing: hidden ones left out, each
/// classified, directories first and then by name without regard to case
/// (entries that compare equal keep the order of the listing).
pub fn arrange(raw: Vec<RawEntry>) -> (r: Vec<FileEntry>)
    ensures
        in_listing_order(visible(raw@), entry_views(r@)),
{
    let ghost all = raw@;
    let mut raw = raw;
    let mut out: Vec<FileEntry> = Vec::new();
    let mut lowers: Vec<Vec<char>> = Vec::new();
    let ghost mut perm: Seq<int> = Seq::empty();
    let n = raw.len();
    let mut i: usize = 0;
    assert(all.take(0) =~= Seq::<RawEntry>::empty());
    assert(raw@ =~= all.skip(0));
    while raw.len() > 0
        invariant
            n == all.len(),
            i + raw@.len() == n,
            raw@ == all.skip(i as int),
            lowers@.len() == out@.len(),
            forall|j: int| 0 <= j < out@.len() ==> (#[trigger] lowers@[j])@ == lowercase(out@[j].name@),
            stable_sorted(visible(all.take(i as int)), out@.map_values(|e: FileEntry| e@), perm),
        decreases raw@.len(),
    {
        let ghost before = raw@;
        let item = raw.remove(0);
        assert(before[0] == all[i as int]);
        assert(raw@ =~= all.skip(i + 1));
        assert(all.take(i + 1).drop_last() =~= all.take(i as int));
        assert(all.take(i + 1).last() == item);
        let ghost s = visible(all.take(i as int));
        let name_chars = chars_of(item.name.as_str());
        let hidden = name_chars.len() > 0 && name_chars[0] == '.';
        if !hidden {
            let kind = if item.is_link {
                EntryKind::Link
            } else if item.is_dir {
                EntryKind::Dir
            } else if item.is_exec {
                EntryKind::Exec
            } else {
                EntryKind::File
            };
            let lower = chars_of(to_lowercase(item.name.as_str()).as_str());
            let entry = FileEntry { name: item.name, path: item.path, kind, is_dir: item.is_dir };
            let ghost x = entry@;
            let ghost ov = out@.map_values(|e: FileEntry| e@);
            let mut p: usize = 0;
            while p < out.len()
                invariant
                    p <= out@.len(),
                    ov == out@.map_values(|e: FileEntry| e@),
                    lowers@.len() == out@.len(),
                    forall|j: int| 0 <= j < out@.len() ==> (#[trigger] lowers@[j])@ == lowercase(out@[j].name@),
                    lower@ == lowercase(x.name),
                    x == entry@,
                    forall|j: int| 0 <= j < p ==> !entry_lt(x, #[trigger] ov[j]),
                ensures
                    p <= out@.len(),
                    p < out@.len() ==> entry_lt(x, ov[p as int]),
                    forall|j: int| 0 <= j < p ==> !entry_lt(x, #[trigger] ov[j]),
                decreases out@.len() - p,
            {
                let before_it = (entry.is_dir && !out[p].is_dir) || (entry.is_dir == out[p].is_dir
                    && text_before(lower.as_slice(), lowers[p].as_slice()));
                assert(before_it == entry_lt(x, ov[p as int]));
                if before_it {
                    break;
                }
                p = p + 1;
            }
            let ghost m = s.len() as int;
            proof {
                if p < out@.len() {
                    assert(entry_lt(x, ov[p as int]));
                }
            }
            out.insert(p, entry);
            lowers.insert(p, lower);
            let ghost perm2 = perm.insert(p as int, m);
            let ghost s2 = s.push(x);
            let ghost ov2 = out@.map_values(|e: FileEntry| e@);
            proof {
                assert(ov2 =~= ov.insert(p as int, x));
                assert forall|k: int| 0 <= k < perm2.len() implies 0 <= #[trigger] perm2[k] < s2.len()
                    && ov2[k] == s2[perm2[k]] by {
                    if k < p {
                        assert(perm2[k] == perm[k]);
                    } else if k > p {
                        assert(perm2[k] == perm[k - 1]);
                    }
                }
                assert forall|k: int, l: int| 0 <= k < l < perm2.len() implies #[trigger] perm2[k]
                    != #[trigger] perm2[l] by {
                    if k != p && l != p {
                        let k0 = if k < p { k } else { k - 1 };
                        let l0 = if l < p { l } else { l - 1 };
                        assert(perm[k0] != perm[l0]);
                    }
                }
                assert forall|k: int, l: int| 0 <= k < l < ov2.len() implies entry_lt(
                    #[trigger] ov2[k],
                    #[trigger] ov2[l],
                ) || (!entry_lt(ov2[l], ov2[k]) && perm2[k] < perm2[l]) by {
                    if k == p {
                        let j = l - 1;
                        assert(ov2[l] == ov[j]);
                        lemma_entry_lt(x, ov[p as int], ov[j]);
                        if j > p {
                            assert(entry_lt(ov[p as int], ov[j]) || (!entry_lt(ov[j], ov[p as int])
                                && perm[p as int] < perm[j]));
                            lemma_entry_lt(ov[p as int], ov[j], ov[p as int]);
                        }
                        assert(entry_lt(x, ov[j]));
                    } else if l == p {
                        assert(ov2[k] == ov[k]);
                        assert(!entry_lt(x, ov[k]));
                        assert(perm2[k] == perm[k]);
                        assert(perm[k] < m);
                    } else {
                        let k0 = if k < p { k } else { k - 1 };
                        let l0 = if l < p { l } else { l - 1 };
                        assert(ov2[k] == ov[k0] && ov2[l] == ov[l0]);
                        assert(perm2[k] == perm[k0] && perm2[l] == perm[l0]);
                    }
                }
                assert forall|j: int| 0 <= j < out@.len() implies (#[trigger] lowers@[j])@ == lowercase(
                    out@[j].name@,
                ) by {
                    if j > p {
                        assert(out@[j] == out@.remove(p as int)[j - 1]);
                    }
                }
                assert(stable_sorted(s2, ov2, perm2));
            }
            proof {
                perm = perm2;
            }
        }
        i = i + 1;
    }
    assert(all.take(n as int) =~= all);
    assert(stable_sorted(visible(all), entry_views(out@), perm));
    out
}


/// What choosing the selected entry asks for.
pub enum BrowseStep {
    /// Enter the directory: list it and hand the listing to `load`.
    Enter(String),
    /// Send this file.
    Send(String),
}

/// A choice as values.
pub enum BrowseStepView {
    Enter(Seq<char>),
    Send(Seq<char>),
}

impl View for BrowseStep {
    type V = BrowseStepView;

    open spec fn view(&self) -> BrowseStepView {
        match self {
            BrowseStep::Enter(p) => BrowseStepView::Enter(p@),
            BrowseStep::Send(p) => BrowseStepView::Send(p@),
        }
    }
}

/// The position of the first entry with the name.
pub open spec fn position_of(es: Seq<EntryView>, name: Seq<char>) -> Option<int>
    decreases es.len(),
{
    if es.len() == 0 {
        None
    } else if es[0].name == name {
        Some(0)
    } else {
        match position_of(es.drop_first(), name) {
            Some(i) => Some(i + 1),
            None => None,
        }
    }
}

proof fn lemma_position_of(es: Seq<EntryView>, name: Seq<char>, k: int)
    requires
        0 <= k <= es.len(),
        forall|j: int| 0 <= j < k ==> es[j].name != name,
    ensures
        k < es.len() && es[k].name == name ==> position_of(es, name) == Some(k),
        k == es.len() ==> position_of(es, name) is None,
    decreases k,
{
    if k > 0 {
        lemma_position_of(es.drop_first(), name, k - 1);
    }
}

/// The selection after a listing: the directory that was left, when going
/// up, or else the first entry.
pub open spec fn selection_after(es: Seq<EntryView>, reselect: Option<Seq<char>>) -> usize {
    match reselect {
        Some(name) => match position_of(es, name) {
            Some(i) => i as usize,
            None => 0,
        },
        None => 0,
    }
}

/// The message shown when a directory cannot be read.
pub open spec fn listing_error_text(dir: Seq<char>, reason: Seq<char>) -> Seq<char> {
    dir + ": "@ + reason
}

/// The browser is the result of loading the listing into `b`.
pub open spec fn loaded(b: BrowserView, listing: Result<Seq<RawEntry>, Seq<char>>, r: BrowserView) -> bool {
    &&& r.peer == b.peer
    &&& r.cwd == b.cwd
    &&& r.reselect is None
    &&& match listing {
        Ok(raw) => in_listing_order(visible(raw), r.entries) && r.error is None,
        Err(reason) => r.entries == Seq::<EntryView>::empty() && r.error == Some(
            listing_error_text(b.cwd, reason),
        ),
    }
    &&& r.selected == selection_after(r.entries, b.reselect)
}

/// The listing as values.
pub open spec fn listing_view(l: Result<Vec<RawEntry>, String>) -> Result<Seq<RawEntry>, Seq<char>> {
    match l {
        Ok(v) => Ok(v@),
        Err(e) => Err(e@),
    }
}

impl FileBrowser {
    /// A browser for sending a file to `peer`, in `cwd`, with its listing.
    pub fn open(peer: PeerKey, cwd: String, listing: Result<Vec<RawEntry>, String>) -> (r: FileBrowser)
        ensures
            loaded(
                BrowserView {
                    peer: peer@,
                    cwd: cwd@,
                    entries: Seq::empty(),
                    selected: 0,
                    error: None,
                    reselect: None,
                },
                listing_view(listing),
                r@,
            ),
    {
        let mut b = FileBrowser {
            peer,
            cwd,
            entries: Vec::new(),
            selected: 0,
            error: None,
            reselect: None,
        };
        b.load(listing);
        b
    }

    /// Take in the listing of the current directory.
    pub fn load(&mut self, listing: Result<Vec<RawEntry>, String>)
        ensures
            loaded(old(self)@, listing_view(listing), final(self)@),
    {
        let ghost lv = listing_view(listing);
        let ghost again = self@.reselect;
        self.selected = 0;
        match listing {
            Ok(raw) => {
                self.entries = arrange(raw);
                self.error = None;
            },
            Err(reason) => {
                self.entries = Vec::new();
                let mut msg = self.cwd.clone();
                msg.append(": ");
                msg.append(reason.as_str());
                self.error = Some(msg);
                assert(self@.entries =~= Seq::<EntryView>::empty());
            },
        }
        let mut again_name: Option<String> = None;
        std::mem::swap(&mut again_name, &mut self.reselect);
        match again_name {
            Some(name) => {
                let ghost es = self@.entries;
                let ghost v0 = self@;
                let mut k: usize = 0;
                while k < self.entries.len()
                    invariant
                        es == self@.entries,
                        self@ == v0,
                        self.reselect is None,
                        again == Some(name@),
                        again == old(self)@.reselect,
                        lv == listing_view(listing),
                        loaded(old(self)@, lv, BrowserView { selected: selection_after(es, again), ..v0 }),
                        k <= es.len(),
                        self.selected == 0,
                        forall|j: int| 0 <= j < k ==> es[j].name != name@,
                    decreases es.len() - k,
                {
                    assert(es[k as int] == self.entries@[k as int]@);
                    if self.entries[k].name == name {
                        proof {
                            lemma_position_of(es, name@, k as int);
                        }
                        self.selected = k;
                        assert(self@ == BrowserView { selected: selection_after(es, again), ..v0 });
                        return;
                    }
                    k = k + 1;
                }
                proof {
                    lemma_position_of(es, name@, k as int);
                }
            },
            None => {},
        }
    }

    /// Move the selection up.
    pub fn up(&mut self)
        ensures
            final(self)@ == (BrowserView { selected: old(self).selected.saturating_sub(1), ..old(self)@ }),
    {
        self.selected = self.selected.saturating_sub(1);
    }

    /// Move the selection down, up to the last entry.
    pub fn down(&mut self)
        ensures
            final(self)@ == (if old(self).selected + 1 < old(self)@.entries.len() {
                BrowserView { selected: (old(self).selected + 1) as usize, ..old(self)@ }
            } else {
                old(self)@
            }),
    {
        if self.entries.len() > 0 && self.selected < self.entries.len() - 1 {
            self.selected = self.selected + 1;
        }
    }

    /// Choose the selected entry: enter a directory (which then needs its
    /// listing), or send a file.
    pub fn activate(&mut self) -> (r: Option<BrowseStep>)
        ensures
            old(self).selected >= old(self)@.entries.len() ==> r is None && final(self)@ == old(self)@,
            old(self).selected < old(self)@.entries.len() ==> ({
                let e = old(self)@.entries[old(self).selected as int];
                if e.is_dir {
                    r matches Some(BrowseStep::Enter(p)) && p@ == e.path && final(self)@ == (BrowserView { cwd: e.path, ..old(self)@ })
                } else {
                    r matches Some(BrowseStep::Send(p)) && p@ == e.path && final(self)@ == old(self)@
                }
            }),
    {
        if self.selected >= self.entries.len() {
            return None;
        }
        let i = self.selected;
        assert(self@.entries[i as int] == self.entries@[i as int]@);
        if self.entries[i].is_dir {
            let path = self.entries[i].path.clone();
            self.cwd = path.clone();
            Some(BrowseStep::Enter(path))
        } else {
            Some(BrowseStep::Send(self.entries[i].path.clone()))
        }
    }

    /// Go to the parent directory (which then needs its listing); the
    /// directory that was left is selected after the listing.
    pub fn parent(&mut self) -> (r: Option<String>)
        ensures
            match path_parent(old(self).cwd@) {
                None => r is None && final(self)@ == old(self)@,
                Some(p) => {
                    &&& r matches Some(q) && q@ == p
                    &&& final(self)@ == (BrowserView {
                        cwd: p,
                        reselect: path_file_name(old(self).cwd@),
                        ..old(self)@
                    })
                },
            },
    {
        match parent_of(self.cwd.as_str()) {
            None => None,
            Some(p) => {
                self.reselect = crate::file_transfer::file_name_of(self.cwd.as_str());
                self.cwd = p.clone();
                Some(p)
            },
        }
    }
}

} // verus!
