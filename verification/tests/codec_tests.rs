use pick_browser::error::Error;
use pick_browser::json::{parse_config, serialize_config};
use pick_browser::model::{Browser, Config};

fn browser(id: &str, name: &str, path: &str, icon: Option<&str>) -> Browser {
    Browser {
        id: id.to_string(),
        name: name.to_string(),
        path: path.to_string(),
        icon: icon.map(|e| e.to_string()),
    }
}

fn assert_same(a: &Config, b: &Config) {
    assert_eq!(a.browsers.len(), b.browsers.len());
    for (x, y) in a.browsers.iter().zip(b.browsers.iter()) {
        assert_eq!(x.id, y.id);
        assert_eq!(x.name, y.name);
        assert_eq!(x.path, y.path);
        assert_eq!(x.icon, y.icon);
    }
}

#[test]
fn serialize_empty_document() {
    let c = Config { browsers: Vec::new() };
    assert_eq!(serialize_config(&c), "{\n  \"browsers\": []\n}");
}

#[test]
fn serialize_one_entry_exact_text() {
    let c = Config { browsers: vec![browser("a", "N", "/p", None)] };
    let expected = "{\n  \"browsers\": [\n    {\n      \"id\": \"a\",\n      \"name\": \"N\",\n      \"path\": \"/p\",\n      \"icon\": null\n    }\n  ]\n}";
    assert_eq!(serialize_config(&c), expected);
}

#[test]
fn serialize_escapes_backslashes_and_quotes() {
    let c = Config {
        browsers: vec![browser(
            "a",
            "quo\"te",
            "C:\\Program Files\\chrome.exe",
            Some("png"),
        )],
    };
    let text = serialize_config(&c);
    assert!(text.contains("\"path\": \"C:\\\\Program Files\\\\chrome.exe\""));
    assert!(text.contains("\"name\": \"quo\\\"te\""));
    assert!(text.contains("\"icon\": \"png\""));
}

#[test]
fn round_trip_preserves_order_and_fields() {
    let c = Config {
        browsers: vec![
            browser("id1", "Chrome", "C:\\Program Files\\Google\\chrome.exe", None),
            browser("id2", "Fire fox", "/usr/bin/firefox", Some("webp")),
            browser("id3", "uni\u{00e9}\u{4e2d}\u{1f600}", "/tmp/\n\t\u{0001}", Some("jpg")),
        ],
    };
    let text = serialize_config(&c);
    let back = parse_config(&text).expect("canonical text must parse");
    assert_same(&c, &back);
}

#[test]
fn round_trip_empty_document() {
    let c = Config { browsers: Vec::new() };
    let back = parse_config(&serialize_config(&c)).expect("canonical text must parse");
    assert_eq!(back.browsers.len(), 0);
}

#[test]
fn parse_accepts_any_field_order_and_whitespace() {
    let text = "  { \"browsers\" : [ {\n\t\"icon\": null, \"path\": \"/x\",\n \"name\": \"X\", \"id\": \"i1\" } ] }  ";
    let c = parse_config(text).expect("shuffled fields must parse");
    assert_eq!(c.browsers.len(), 1);
    assert_eq!(c.browsers[0].id, "i1");
    assert_eq!(c.browsers[0].name, "X");
    assert_eq!(c.browsers[0].path, "/x");
    assert_eq!(c.browsers[0].icon, None);
}

#[test]
fn parse_decodes_string_escapes() {
    let text = "{\"browsers\":[{\"id\":\"\\u0041\\u00e9\",\"name\":\"a\\nb\\tc\",\"path\":\"q\\\"\\\\w\\/\",\"icon\":\"\\ud83d\\ude00\"}]}";
    let c = parse_config(text).expect("escapes must parse");
    assert_eq!(c.browsers[0].id, "A\u{00e9}");
    assert_eq!(c.browsers[0].name, "a\nb\tc");
    assert_eq!(c.browsers[0].path, "q\"\\w/");
    assert_eq!(c.browsers[0].icon.as_deref(), Some("\u{1f600}"));
}

#[test]
fn parse_rejects_malformed_documents() {
    let cases = [
        "",
        "not json",
        "{\"browsers\": }",
        "{\"browsers\": [}",
        "{\"other\": []}",
        // a duplicate field
        "{\"browsers\":[{\"id\":\"a\",\"id\":\"b\",\"name\":\"n\",\"path\":\"p\",\"icon\":null}]}",
        // a missing field
        "{\"browsers\":[{\"id\":\"a\",\"name\":\"n\",\"icon\":null}]}",
        // an unknown field
        "{\"browsers\":[{\"id\":\"a\",\"name\":\"n\",\"path\":\"p\",\"icon\":null,\"zz\":null}]}",
        // trailing content
        "{\"browsers\": []} x",
        // a lone surrogate escape
        "{\"browsers\":[{\"id\":\"\\ud800\",\"name\":\"n\",\"path\":\"p\",\"icon\":null}]}",
        // a raw control character in a string
        "{\"browsers\":[{\"id\":\"a\u{0001}\",\"name\":\"n\",\"path\":\"p\",\"icon\":null}]}",
    ];
    for case in cases {
        match parse_config(case) {
            Err(Error::ParseError(_)) => {},
            other => panic!("expected a parse error for {:?}, got {:?}", case, other.is_ok()),
        }
    }
}

#[test]
fn parse_error_carries_a_message() {
    let e = parse_config("nope").unwrap_err();
    let msg = e.message();
    assert!(msg.starts_with("malformed configuration: "));
    assert!(matches!(e, Error::ParseError(_)));
}

#[test]
fn save_after_load_changes_only_formatting() {
    // loading a hand-formatted document and saving it back preserves the
    // content: parsing what was saved yields the same document again
    let text = "{ \"browsers\": [ {\"name\":\"X\",\"id\":\"i1\",\"path\":\"/x\",\"icon\":\"png\"},\n {\"id\":\"i2\",\"icon\":null,\"name\":\"Y\",\"path\":\"C:\\\\y\"} ] }";
    let loaded = parse_config(text).expect("document must parse");
    let saved = serialize_config(&loaded);
    let reloaded = parse_config(&saved).expect("saved document must parse");
    assert_same(&loaded, &reloaded);
}
