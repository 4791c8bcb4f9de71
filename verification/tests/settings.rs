use p2p_chat::config::{default_nick, plan_launch, Config, Settings};
use p2p_chat::message::UiCommand;
use p2p_chat::paths::{candidate, config_path, data_dir, downloads_dir, first_free, identity_path, join_path};

fn bare() -> Config {
    Config { port: None, nick: None, dial: Vec::new(), headless: false, data_dir: None }
}

#[test]
fn data_dir_order() {
    assert_eq!(data_dir(Some("/d"), Some("/x"), Some("/h")), Some("/d".to_string()));
    assert_eq!(data_dir(None, Some("/x"), Some("/h")), Some("/x/p2p-chat".to_string()));
    assert_eq!(data_dir(None, None, Some("/home/u")), Some("/home/u/.local/share/p2p-chat".to_string()));
    assert_eq!(data_dir(None, Some("/x/"), None), Some("/x/p2p-chat".to_string()));
    assert_eq!(data_dir(None, None, None), None);
}

#[test]
fn files_in_the_data_dir() {
    assert_eq!(identity_path("/d"), "/d/identity.bin");
    assert_eq!(config_path("/d/"), "/d/config.toml");
    assert_eq!(downloads_dir("/d"), "/d/downloads");
    assert_eq!(join_path("/a", "/abs"), "/abs");
    assert_eq!(join_path("", "rel"), "rel");
}

#[test]
fn candidate_names() {
    assert_eq!(candidate("photo.jpg", 0), "photo.jpg");
    assert_eq!(candidate("photo.jpg", 1), "photo (1).jpg");
    assert_eq!(candidate("archive.tar.gz", 2), "archive.tar (2).gz");
    assert_eq!(candidate("README", 3), "README (3)");
}

#[test]
fn fallback_nickname() {
    assert_eq!(default_nick(Some("u".into()), Some("v".into())), "u");
    assert_eq!(default_nick(None, Some("v".into())), "v");
    assert_eq!(default_nick(None, None), "anon");
    let mut c = bare();
    assert_eq!(c.nickname("sys".into()), "sys");
    c.nick = Some("bob".into());
    assert_eq!(c.nickname("sys".into()), "bob");
}

#[test]
fn interactive_only_when_bare() {
    assert!(bare().is_interactive());
    let mut c = bare();
    c.headless = true;
    assert!(!c.is_interactive());
    let mut c = bare();
    c.port = Some(1);
    assert!(!c.is_interactive());
    let mut c = bare();
    c.dial.push("1.2.3.4:5".into());
    assert!(!c.is_interactive());
}

#[test]
fn launch_prefers_options_then_saved() {
    let saved = Settings { nick: Some("saved".into()), port: 7000, dial: vec!["1.1.1.1:1".into()], remember: true };
    let plan = plan_launch(&bare(), &saved, "sys".into());
    assert!(plan.interactive);
    assert!(plan.start.is_none());
    assert_eq!(plan.nick, "saved");
    assert_eq!(plan.port, 7000);
    assert_eq!(plan.startup.dial, "1.1.1.1:1");
    assert!(plan.startup.remember);

    let mut c = bare();
    c.port = Some(9000);
    c.dial = vec!["2.2.2.2:2".into(), "3.3.3.3:3".into()];
    let plan = plan_launch(&c, &Settings::empty(), "sys".into());
    assert!(!plan.interactive);
    assert_eq!(plan.nick, "sys");
    match plan.start {
        Some(UiCommand::Start { nick, port, dials }) => {
            assert_eq!(nick, "sys");
            assert_eq!(port, 9000);
            assert_eq!(dials, vec!["2.2.2.2:2".to_string(), "3.3.3.3:3".to_string()]);
        }
        _ => panic!("expected a start command"),
    }
    assert_eq!(plan.startup.dial, "2.2.2.2:2");
}

#[test]
fn first_free_name_skips_taken_ones() {
    let none: Vec<String> = Vec::new();
    assert_eq!(first_free("photo.jpg", &none), Some("photo.jpg".to_string()));
    let taken = vec!["photo.jpg".to_string(), "photo (1).jpg".to_string(), "other".to_string()];
    assert_eq!(first_free("photo.jpg", &taken), Some("photo (2).jpg".to_string()));
    let dotted = vec![".bashrc".to_string()];
    assert_eq!(first_free(".bashrc", &dotted), Some(" (1).bashrc".to_string()));
    assert_eq!(first_free("notes", &vec!["notes".to_string()]), Some("notes (1)".to_string()));
}
