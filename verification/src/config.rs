//! Launch options, saved settings, and how they combine at start-up.
use vstd::prelude::*;
use crate::message::{UiCommand, CommandView, texts};

verus! {

broadcast use vstd::string::group_string_axioms;

/// The command-line options.
pub struct Config {
    /// Port for incoming connections. When it is not given, the interactive
    /// start screen asks for it; otherwise 0 (any free port).
    pub port: Option<u16>,
    /// The shown nickname (by default the user name of the system).
    pub nick: Option<String>,
    /// Addresses of peers to dial: a full multiaddr, or a short `ip:port`
    /// (taken as QUIC).
    pub dial: Vec<String>,
    /// Run without the terminal interface: commands from standard input,
    /// events to standard output.
    pub headless: bool,
    /// The data directory (identity, logs, downloads).
    pub data_dir: Option<String>,
}

/// The user name of the system as the fallback nickname: `USER`, else
/// `USERNAME`, else `anon`.
pub open spec fn default_nick_spec(user: Option<Seq<char>>, username: Option<Seq<char>>) -> Seq<char> {
    match user {
        Some(u) => u,
        None => match username {
            Some(u) => u,
            None => "anon"@,
        },
    }
}

/// The text of an optional string.
pub open spec fn opt_view(s: Option<String>) -> Option<Seq<char>> {
    match s {
        Some(t) => Some(t@),
        None => None,
    }
}

/// The fallback nickname from the values of `USER` and `USERNAME`.
pub fn default_nick(user: Option<String>, username: Option<String>) -> (r: String)
    ensures
        r@ == default_nick_spec(opt_view(user), opt_view(username)),
{
    match user {
        Some(u) => u,
        None => match username {
            Some(u) => u,
            None => "anon".to_string(),
        },
    }
}

impl Config {
    /// The nickname, with the fallback when none was given.
    pub fn nickname(&self, fallback: String) -> (r: String)
        ensures
            r@ == match opt_view(self.nick) {
                Some(n) => n,
                None => fallback@,
            },
    {
        match &self.nick {
            Some(n) => n.clone(),
            None => fallback,
        }
    }

    /// Whether the interactive start screen is shown: only on a bare launch,
    /// without the headless mode and without any option that configures the
    /// node.
    pub fn is_interactive(&self) -> (r: bool)
        ensures
            r == (!self.headless && self.port is None && self.nick is None && self.dial@.len() == 0),
    {
        !self.headless && self.port.is_none() && self.nick.is_none() && self.dial.len() == 0
    }
}

/// The launch choices kept in `config.toml`, to fill in the start screen next
/// time. Only a convenience: errors in reading or writing them are not fatal.
pub struct Settings {
    pub nick: Option<String>,
    pub port: u16,
    pub dial: Vec<String>,
    /// Whether "remember" was ticked (to fill in the checkbox).
    pub remember: bool,
}

/// Saved settings as values.
pub struct SettingsView {
    pub nick: Option<Seq<char>>,
    pub port: u16,
    pub dial: Seq<Seq<char>>,
    pub remember: bool,
}

impl View for Settings {
    type V = SettingsView;

    open spec fn view(&self) -> SettingsView {
        SettingsView {
            nick: opt_view(self.nick),
            port: self.port,
            dial: texts(self.dial@),
            remember: self.remember,
        }
    }
}

impl Settings {
    /// Nothing remembered.
    pub fn empty() -> (r: Settings)
        ensures
            r.nick is None,
            r.port == 0,
            r.dial@.len() == 0,
            !r.remember,
    {
        Settings { nick: None, port: 0, dial: Vec::new(), remember: false }
    }
}

/// The initial values of the terminal interface.
pub struct StartupConfig {
    /// Show the start screen (true) or go straight to the chat (false).
    pub interactive: bool,
    /// The nickname to fill in.
    pub nick: String,
    /// The port to fill in (0: empty field, any free port).
    pub port: u16,
    /// The address to fill in (may be empty).
    pub dial: String,
    /// The state of the "remember the settings" checkbox.
    pub remember: bool,
}

/// How the node is launched.
pub struct Launch {
    pub interactive: bool,
    pub nick: String,
    pub port: u16,
    pub dials: Vec<String>,
    /// The start command to send at once (when the launch is not interactive).
    pub start: Option<UiCommand>,
    /// The values for the terminal interface.
    pub startup: StartupConfig,
}

/// Copy a list of strings.
pub fn copy_texts(v: &Vec<String>) -> (r: Vec<String>)
    ensures
        texts(r@) == texts(v@),
{
    let mut r: Vec<String> = Vec::new();
    let mut i: usize = 0;
    while i < v.len()
        invariant
            i <= v@.len(),
            texts(r@) == texts(v@).take(i as int),
        decreases v@.len() - i,
    {
        let c = v[i].clone();
        assert(c@ == v@[i as int]@);
        let ghost before = r@;
        r.push(c);
        proof {
            assert(texts(r@) =~= texts(before).push(c@));
            assert(texts(v@).take(i + 1) =~= texts(v@).take(i as int).push(v@[i as int]@));
        }
        i = i + 1;
    }
    assert(texts(v@).take(v@.len() as int) =~= texts(v@));
    r
}

/// The launch values: options first, then the saved settings, then the
/// defaults. The nickname falls back to the system user name; the first
/// address to dial fills the start screen.
pub fn plan_launch(config: &Config, saved: &Settings, fallback_nick: String) -> (r: Launch)
    ensures
        r.interactive == (!config.headless && config.port is None && config.nick is None
            && config.dial@.len() == 0),
        r.nick@ == match opt_view(config.nick) {
            Some(n) => n,
            None => match opt_view(saved.nick) {
                Some(n) => n,
                None => fallback_nick@,
            },
        },
        r.port == match config.port {
            Some(p) => p,
            None => saved.port,
        },
        texts(r.dials@) == (if config.dial@.len() == 0 {
            texts(saved.dial@)
        } else {
            texts(config.dial@)
        }),
        match r.start {
            Some(cmd) => !r.interactive && cmd@ == CommandView::Start {
                nick: r.nick@,
                port: r.port,
                dials: texts(r.dials@),
            },
            None => r.interactive,
        },
        r.startup.interactive == r.interactive,
        r.startup.nick@ == r.nick@,
        r.startup.port == r.port,
        r.startup.dial@ == (if r.dials@.len() == 0 {
            Seq::<char>::empty()
        } else {
            r.dials@[0]@
        }),
        r.startup.remember == saved.remember,
{
    let interactive = config.is_interactive();
    let nick = match &config.nick {
        Some(n) => n.clone(),
        None => match &saved.nick {
            Some(n) => n.clone(),
            None => fallback_nick,
        },
    };
    let port = match config.port {
        Some(p) => p,
        None => saved.port,
    };
    let dials = if config.dial.len() == 0 {
        copy_texts(&saved.dial)
    } else {
        copy_texts(&config.dial)
    };
    let start = if !interactive {
        let cmd = UiCommand::Start { nick: nick.clone(), port, dials: copy_texts(&dials) };
        Some(cmd)
    } else {
        None
    };
    let dial = if dials.len() == 0 {
        String::new()
    } else {
        dials[0].clone()
    };
    proof {
        if dials@.len() > 0 {
            assert(texts(dials@)[0] == dials@[0]@);
        }
    }
    let startup = StartupConfig {
        interactive,
        nick: nick.clone(),
        port,
        dial,
        remember: saved.remember,
    };
    Launch { interactive, nick, port, dials, start, startup }
}

} // verus!
