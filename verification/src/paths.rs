//! Where the node keeps its data: the data directory and the files in it.
use vstd::prelude::*;
use crate::text::{decimal, decimal_string, find_last, slice_range, string_of, chars_of, rsplit_once, chars_eq};

verus! {

broadcast use vstd::string::group_string_axioms;

/// `PathBuf::join` on Unix: an absolute component replaces the base; otherwise
/// a separator is put between them unless the base is empty or already ends
/// with one.
pub open spec fn join(base: Seq<char>, comp: Seq<char>) -> Seq<char> {
    if comp.len() > 0 && comp[0] == '/' {
        comp
    } else if base.len() == 0 {
        comp
    } else if base.last() == '/' {
        base + comp
    } else {
        base + seq!['/'] + comp
    }
}

/// Join a path component to a base path.
pub fn join_path(base: &str, comp: &str) -> (r: String)
    ensures
        r@ == join(base@, comp@),
{
    let c = chars_of(comp);
    let b = chars_of(base);
    if c.len() > 0 && c[0] == '/' {
        return comp.to_string();
    }
    if b.len() == 0 {
        return comp.to_string();
    }
    let mut r = base.to_string();
    if b[b.len() - 1] != '/' {
        r.append("/");
        proof {
            reveal_strlit("/");
        }
    }
    r.append(comp);
    r
}

/// The data directory: `P2P_CHAT_DATA_DIR` if set; otherwise `p2p-chat` under
/// `$XDG_DATA_HOME`, or else under `$HOME/.local/share`; none when neither is
/// set.
pub open spec fn data_dir_spec(
    override_dir: Option<Seq<char>>,
    xdg_data_home: Option<Seq<char>>,
    home: Option<Seq<char>>,
) -> Option<Seq<char>> {
    match override_dir {
        Some(d) => Some(d),
        None => match xdg_data_home {
            Some(x) => Some(join(x, "p2p-chat"@)),
            None => match home {
                Some(h) => Some(join(join(h, ".local/share"@), "p2p-chat"@)),
                None => None,
            },
        },
    }
}

/// The data directory from the values of `P2P_CHAT_DATA_DIR`,
/// `XDG_DATA_HOME` and `HOME`.
pub fn data_dir(
    override_dir: Option<&str>,
    xdg_data_home: Option<&str>,
    home: Option<&str>,
) -> (r: Option<String>)
    ensures
        match r {
            Some(d) => data_dir_spec(opt_text(override_dir), opt_text(xdg_data_home), opt_text(home))
                == Some(d@),
            None => data_dir_spec(opt_text(override_dir), opt_text(xdg_data_home), opt_text(home))
                is None,
        },
{
    match override_dir {
        Some(d) => Some(d.to_string()),
        None => match xdg_data_home {
            Some(x) => Some(join_path(x, "p2p-chat")),
            None => match home {
                Some(h) => {
                    let share = join_path(h, ".local/share");
                    Some(join_path(share.as_str(), "p2p-chat"))
                },
                None => None,
            },
        },
    }
}

/// The text of an optional text.
pub open spec fn opt_text(s: Option<&str>) -> Option<Seq<char>> {
    match s {
        Some(t) => Some(t@),
        None => None,
    }
}

/// The message when no data directory can be found.
pub fn no_home_message() -> (r: String)
    ensures
        r@ == "не удалось определить домашнюю директорию"@,
{
    "не удалось определить домашнюю директорию".to_string()
}

/// Where the identity is kept in the data directory.
pub fn identity_path(data_dir: &str) -> (r: String)
    ensures
        r@ == join(data_dir@, "identity.bin"@),
{
    join_path(data_dir, "identity.bin")
}

/// Where the launch settings are kept in the data directory.
pub fn config_path(data_dir: &str) -> (r: String)
    ensures
        r@ == join(data_dir@, "config.toml"@),
{
    join_path(data_dir, "config.toml")
}

/// The directory for received files in the data directory.
pub fn downloads_dir(data_dir: &str) -> (r: String)
    ensures
        r@ == join(data_dir@, "downloads"@),
{
    join_path(data_dir, "downloads")
}

/// The stem and the extension (with its dot) of a file name, split at the
/// last dot; no dot means no extension.
pub open spec fn stem_ext(name: Seq<char>) -> (Seq<char>, Seq<char>) {
    match rsplit_once(name, '.') {
        Some(parts) => (parts.0, seq!['.'] + parts.1),
        None => (name, Seq::empty()),
    }
}

/// The name to try for a received file at attempt `i`: the name itself first,
/// then `stem (i)ext` for `i = 1, 2, ...`, until one is free.
pub open spec fn candidate_name(name: Seq<char>, i: nat) -> Seq<char> {
    if i == 0 {
        name
    } else {
        stem_ext(name).0 + " ("@ + decimal(i) + ")"@ + stem_ext(name).1
    }
}

/// The name to try for a received file at attempt `i`.
pub fn candidate(name: &str, i: u64) -> (r: String)
    ensures
        r@ == candidate_name(name@, i as nat),
{
    if i == 0 {
        return name.to_string();
    }
    let v = chars_of(name);
    let n = v.len();
    let (stem, ext) = match find_last(v.as_slice(), '.') {
        Some(k) => {
            let s = slice_range(v.as_slice(), 0, k);
            let mut e = ".".to_string();
            proof {
                reveal_strlit(".");
            }
            assert(k < n);
            let rest = slice_range(v.as_slice(), k + 1, n);
            e.append(string_of(rest.as_slice()).as_str());
            assert(s@ =~= v@.take(k as int));
            assert(rest@ =~= v@.skip(k + 1));
            (string_of(s.as_slice()), e)
        },
        None => (name.to_string(), String::new()),
    };
    let mut r = stem;
    r.append(" (");
    r.append(decimal_string(i).as_str());
    r.append(")");
    r.append(ext.as_str());
    r
}

/// One of the names is `n`.
pub open spec fn names_hold(names: Seq<String>, n: Seq<char>) -> bool {
    exists|j: int| 0 <= j < names.len() && #[trigger] names[j]@ == n
}

/// Whether one of the names is `name`.
fn is_taken(names: &Vec<String>, name: &str) -> (r: bool)
    ensures
        r == names_hold(names@, name@),
{
    let c = chars_of(name);
    let mut j: usize = 0;
    while j < names.len()
        invariant
            j <= names@.len(),
            c@ == name@,
            forall|t: int| 0 <= t < j ==> #[trigger] names@[t]@ != name@,
        decreases names@.len() - j,
    {
        let d = chars_of(names[j].as_str());
        if chars_eq(d.as_slice(), c.as_slice()) {
            assert(names@[j as int]@ == name@);
            return true;
        }
        j = j + 1;
    }
    false
}

/// The name to save a received file under, given the names already in the
/// directory: the first candidate (`name`, then `stem (1)ext`, ...) that is
/// not among them. `None` only if every candidate up to the last attempt is
/// taken.
pub fn first_free(name: &str, taken: &Vec<String>) -> (r: Option<String>)
    ensures
        match r {
            Some(s) => exists|k: nat|
                k < u64::MAX && s@ == #[trigger] candidate_name(name@, k) && !names_hold(taken@, s@)
                    && forall|j: nat| j < k ==> names_hold(taken@, #[trigger] candidate_name(name@, j)),
            None => forall|j: nat|
                j < u64::MAX ==> names_hold(taken@, #[trigger] candidate_name(name@, j)),
        },
{
    let mut i: u64 = 0;
    while i < u64::MAX
        invariant
            forall|j: nat| j < i ==> names_hold(taken@, #[trigger] candidate_name(name@, j)),
        decreases u64::MAX - i,
    {
        let c = candidate(name, i);
        if !is_taken(taken, c.as_str()) {
            assert(c@ == candidate_name(name@, i as nat));
            return Some(c);
        }
        i = i + 1;
    }
    None
}

} // verus!
