use pick_browser::error::Error;
use pick_browser::handler::{is_default_from_prog_id, make_default_plan, prog_id_value_name, user_choice_key};
use pick_browser::launch::resolve_launch_url;
use pick_browser::model::{default_config, new_default_config, Platform};

#[test]
fn resolve_url_finds_the_first_link() {
    let args = vec!["/prog".to_string(), "https://example.com".to_string()];
    assert_eq!(resolve_launch_url(&args), "https://example.com");
    let args = vec!["/prog".to_string(), "--flag".to_string()];
    assert_eq!(resolve_launch_url(&args), "");
    let args = vec![
        "/prog".to_string(),
        "--flag".to_string(),
        "http://a".to_string(),
        "https://b".to_string(),
    ];
    assert_eq!(resolve_launch_url(&args), "http://a");
    // the program name itself is never considered
    let args = vec!["http://prog".to_string()];
    assert_eq!(resolve_launch_url(&args), "");
    let args: Vec<String> = Vec::new();
    assert_eq!(resolve_launch_url(&args), "");
    // only the two exact scheme prefixes count
    let args = vec!["/prog".to_string(), "ftp://x".to_string(), "httpx://y".to_string()];
    assert_eq!(resolve_launch_url(&args), "");
}

#[test]
fn default_query_decision() {
    let w = Platform::Windows;
    assert!(is_default_from_prog_id(w, &Some("PickBrowserURL".to_string())));
    assert!(is_default_from_prog_id(w, &Some("xx pick_browser yy".to_string())));
    assert!(!is_default_from_prog_id(w, &Some("FirefoxURL".to_string())));
    assert!(!is_default_from_prog_id(w, &None));
    // every reading on an unsupported platform collapses to false
    assert!(!is_default_from_prog_id(Platform::Other, &Some("PickBrowserURL".to_string())));
    assert!(!is_default_from_prog_id(Platform::MacOs, &Some("PickBrowserURL".to_string())));
}

#[test]
fn registration_plan_on_windows() {
    let plan = make_default_plan(Platform::Windows, "C:\\app\\pick.exe").unwrap();
    assert_eq!(plan.len(), 10);
    assert_eq!(plan[0].key_path, "Software\\PickBrowser");
    assert_eq!(plan[0].value_name, "ApplicationName");
    assert_eq!(plan[0].value, "Pick Browser");
    assert_eq!(plan[4].key_path, "Software\\PickBrowser\\Capabilities\\URLAssociations");
    assert_eq!(plan[4].value_name, "http");
    assert_eq!(plan[4].value, "PickBrowserURL");
    assert_eq!(plan[5].value_name, "https");
    assert_eq!(plan[6].key_path, "Software\\Classes\\PickBrowserURL");
    assert_eq!(plan[6].value_name, "");
    assert_eq!(plan[7].value_name, "URL Protocol");
    assert_eq!(plan[7].value, "");
    assert_eq!(plan[8].key_path, "Software\\Classes\\PickBrowserURL\\shell\\open\\command");
    assert_eq!(plan[8].value, "\"C:\\app\\pick.exe\" \"%1\"");
    assert_eq!(plan[9].key_path, "Software\\RegisteredApplications");
    assert_eq!(plan[9].value_name, "PickBrowser");
    assert_eq!(plan[9].value, "Software\\PickBrowser\\Capabilities");
}

#[test]
fn registration_is_unsupported_elsewhere() {
    for p in [Platform::MacOs, Platform::Other] {
        match make_default_plan(p, "/usr/bin/pick") {
            Err(Error::UnsupportedPlatform) => {},
            other => panic!("expected UnsupportedPlatform, got ok={}", other.is_ok()),
        }
    }
    assert_eq!(
        Error::UnsupportedPlatform.message(),
        "setting the default browser is not supported on this platform"
    );
}

#[test]
fn registry_query_constants() {
    assert_eq!(
        user_choice_key(),
        "Software\\Microsoft\\Windows\\Shell\\Associations\\UrlAssociations\\http\\UserChoice"
    );
    assert_eq!(prog_id_value_name(), "ProgId");
}

#[test]
fn first_run_default_document() {
    for p in [Platform::Windows, Platform::MacOs, Platform::Other] {
        let c = new_default_config(p).unwrap();
        assert_eq!(c.browsers.len(), 2);
        assert_eq!(c.browsers[0].name, "Chrome");
        assert_eq!(c.browsers[1].name, "Firefox");
        assert!(c.browsers[0].icon.is_none());
        assert!(c.browsers[1].icon.is_none());
        assert_ne!(c.browsers[0].id, c.browsers[1].id);
    }
    let w = new_default_config(Platform::Windows).unwrap();
    assert_eq!(w.browsers[0].path, "C:\\Program Files\\Google\\Chrome\\Application\\chrome.exe");
    assert_eq!(w.browsers[1].path, "C:\\Program Files\\Mozilla Firefox\\firefox.exe");
    let m = new_default_config(Platform::MacOs).unwrap();
    assert_eq!(m.browsers[0].path, "/Applications/Google Chrome.app/Contents/MacOS/Google Chrome");
    assert_eq!(m.browsers[1].path, "/Applications/Firefox.app/Contents/MacOS/firefox");
    let o = new_default_config(Platform::Other).unwrap();
    assert_eq!(o.browsers[0].path, "google-chrome");
    assert_eq!(o.browsers[1].path, "firefox");
    // the variant under caller-chosen ids
    let d = default_config(Platform::Other, "one".to_string(), "two".to_string());
    assert_eq!(d.browsers[0].id, "one");
    assert_eq!(d.browsers[1].id, "two");
}

#[test]
fn error_messages_carry_their_context() {
    assert_eq!(Error::IoError("disk gone".to_string()).message(), "I/O failure: disk gone");
    assert_eq!(
        Error::SpawnError("no such file".to_string()).message(),
        "failed to start browser: no such file"
    );
    assert_eq!(
        Error::RegistrationError("access denied".to_string()).message(),
        "failed to register as default browser: access denied"
    );
    assert_eq!(
        Error::UnsupportedFormat("image/gif".to_string()).message(),
        "unsupported image format: image/gif"
    );
    assert_eq!(
        Error::DecodeError("bad padding".to_string()).message(),
        "failed to decode icon data: bad padding"
    );
}
