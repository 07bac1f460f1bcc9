use base64::Engine;
use pick_browser::error::Error;
use pick_browser::icons::{ext_for_mime, mime_for_ext, IconDir};
use pick_browser::model::{Browser, Config};
use pick_browser::registry::Registry;

fn b64(bytes: &[u8]) -> String {
    base64::engine::general_purpose::STANDARD.encode(bytes)
}

fn unb64(text: &str) -> Vec<u8> {
    base64::engine::general_purpose::STANDARD
        .decode(text)
        .expect("served icon data must be decodable")
}

fn empty_registry() -> Registry {
    Registry::from_parts(Config { browsers: Vec::new() }, IconDir::new()).unwrap()
}

#[test]
fn add_then_get_returns_the_same_fields() {
    let mut reg = empty_registry();
    let mu = reg
        .add_browser("X".to_string(), "/x".to_string(), None, None)
        .unwrap();
    let b = reg.get(&mu.id).unwrap();
    assert_eq!(b.name, "X");
    assert_eq!(b.path, "/x");
    assert_eq!(b.icon, None);
    assert_eq!(b.id, mu.id);
}

#[test]
fn added_ids_are_pairwise_distinct() {
    let mut reg = empty_registry();
    let mut ids = Vec::new();
    for i in 0..8 {
        let mu = reg
            .add_browser(format!("b{}", i), format!("/bin/b{}", i), None, None)
            .unwrap();
        ids.push(mu.id);
    }
    for i in 0..ids.len() {
        for j in 0..i {
            assert_ne!(ids[i], ids[j]);
        }
    }
    assert_eq!(reg.list().len(), 8);
}

#[test]
fn list_preserves_insertion_order() {
    let mut reg = empty_registry();
    let a = reg.add_browser("A".to_string(), "/a".to_string(), None, None).unwrap();
    let b = reg.add_browser("B".to_string(), "/b".to_string(), None, None).unwrap();
    let ls = reg.list();
    assert_eq!(ls.len(), 2);
    assert_eq!(ls[0].id, a.id);
    assert_eq!(ls[1].id, b.id);
    // an update does not reorder
    reg.update_browser(&a.id, "A2".to_string(), "/a2".to_string(), None, None, false)
        .unwrap();
    let ls = reg.list();
    assert_eq!(ls[0].id, a.id);
    assert_eq!(ls[0].name, "A2");
    assert_eq!(ls[0].path, "/a2");
    assert_eq!(ls[1].id, b.id);
}

#[test]
fn icon_round_trip_through_the_store() {
    let mut reg = empty_registry();
    let payload: Vec<u8> = vec![137, 80, 78, 71, 13, 10, 26, 10, 0, 1, 2, 3];
    let mu = reg
        .add_browser(
            "P".to_string(),
            "/p".to_string(),
            Some(b64(&payload)),
            Some("image/png".to_string()),
        )
        .unwrap();
    let w = mu.write.expect("an icon write effect is owed");
    assert_eq!(w.id, mu.id);
    assert_eq!(w.ext, "png");
    assert_eq!(w.bytes, payload);
    let icon = reg.get_browser_icon(&mu.id).unwrap().expect("icon present");
    assert_eq!(icon.mime_type, "image/png");
    assert_eq!(unb64(&icon.data), payload);
}

#[test]
fn icon_removal_forgets_the_asset() {
    let mut reg = empty_registry();
    let mu = reg
        .add_browser(
            "P".to_string(),
            "/p".to_string(),
            Some(b64(&[1, 2, 3])),
            Some("image/png".to_string()),
        )
        .unwrap();
    let upd = reg
        .update_browser(&mu.id, "P".to_string(), "/p".to_string(), None, None, true)
        .unwrap();
    assert!(upd.write.is_none());
    let rm = upd.remove.expect("the superseded asset must be named");
    assert_eq!(rm.id, mu.id);
    assert_eq!(rm.ext, "png");
    assert!(reg.get_browser_icon(&mu.id).unwrap().is_none());
    let b = reg.get(&mu.id).unwrap();
    assert_eq!(b.icon, None);
}

#[test]
fn icon_replace_with_new_extension_cleans_up() {
    let mut reg = empty_registry();
    let mu = reg
        .add_browser(
            "P".to_string(),
            "/p".to_string(),
            Some(b64(&[9, 9, 9])),
            Some("image/png".to_string()),
        )
        .unwrap();
    let jpeg_bytes = vec![255, 216, 255, 224];
    let upd = reg
        .update_browser(
            &mu.id,
            "P".to_string(),
            "/p".to_string(),
            Some(b64(&jpeg_bytes)),
            Some("image/jpeg".to_string()),
            false,
        )
        .unwrap();
    let w = upd.write.expect("the new asset must be written");
    assert_eq!(w.ext, "jpg");
    assert_eq!(w.bytes, jpeg_bytes);
    let rm = upd.remove.expect("the old asset must be deleted");
    assert_eq!(rm.ext, "png");
    let icon = reg.get_browser_icon(&mu.id).unwrap().expect("icon present");
    assert_eq!(icon.mime_type, "image/jpeg");
    assert_eq!(unb64(&icon.data), jpeg_bytes);
    let b = reg.get(&mu.id).unwrap();
    assert_eq!(b.icon.as_deref(), Some("jpg"));
}

#[test]
fn icon_replace_same_extension_overwrites_in_place() {
    let mut reg = empty_registry();
    let mu = reg
        .add_browser(
            "P".to_string(),
            "/p".to_string(),
            Some(b64(&[1])),
            Some("image/png".to_string()),
        )
        .unwrap();
    let upd = reg
        .update_browser(
            &mu.id,
            "P".to_string(),
            "/p".to_string(),
            Some(b64(&[2])),
            Some("image/png".to_string()),
            false,
        )
        .unwrap();
    assert!(upd.remove.is_none());
    assert_eq!(upd.write.unwrap().bytes, vec![2]);
    let icon = reg.get_browser_icon(&mu.id).unwrap().unwrap();
    assert_eq!(unb64(&icon.data), vec![2]);
}

#[test]
fn unknown_id_is_not_found() {
    let mut reg = empty_registry();
    reg.add_browser("A".to_string(), "/a".to_string(), None, None).unwrap();
    let never = "never-returned-by-add";
    assert!(matches!(reg.get(never), Err(Error::NotFound(_))));
    assert!(matches!(reg.get_browser_icon(never), Err(Error::NotFound(_))));
    assert!(matches!(
        reg.update_browser(never, "N".to_string(), "/n".to_string(), None, None, false),
        Err(Error::NotFound(_))
    ));
    let e = reg.get(never).unwrap_err();
    assert_eq!(
        e.message(),
        "browser with id 'never-returned-by-add' not found"
    );
}

#[test]
fn unsupported_mime_rejects_and_changes_nothing() {
    let mut reg = empty_registry();
    let r = reg.add_browser(
        "G".to_string(),
        "/g".to_string(),
        Some(b64(&[1, 2])),
        Some("image/gif".to_string()),
    );
    match r {
        Err(Error::UnsupportedFormat(m)) => assert_eq!(m, "image/gif"),
        other => panic!("expected UnsupportedFormat, got ok={}", other.is_ok()),
    }
    assert_eq!(reg.list().len(), 0);
    // the same on update
    let mu = reg.add_browser("A".to_string(), "/a".to_string(), None, None).unwrap();
    let r = reg.update_browser(
        &mu.id,
        "A".to_string(),
        "/a".to_string(),
        Some(b64(&[1])),
        Some("image/gif".to_string()),
        false,
    );
    assert!(matches!(r, Err(Error::UnsupportedFormat(_))));
    let b = reg.get(&mu.id).unwrap();
    assert_eq!(b.name, "A");
    assert_eq!(b.icon, None);
}

#[test]
fn malformed_payload_is_a_decode_error() {
    let mut reg = empty_registry();
    let r = reg.add_browser(
        "D".to_string(),
        "/d".to_string(),
        Some("@@@not base64@@@".to_string()),
        Some("image/png".to_string()),
    );
    assert!(matches!(r, Err(Error::DecodeError(_))));
    assert_eq!(reg.list().len(), 0);
}

#[test]
fn icon_payload_without_mime_is_ignored() {
    let mut reg = empty_registry();
    let mu = reg
        .add_browser("A".to_string(), "/a".to_string(), Some(b64(&[1])), None)
        .unwrap();
    assert!(mu.write.is_none());
    assert!(reg.get_browser_icon(&mu.id).unwrap().is_none());
}

#[test]
fn duplicate_ids_in_a_document_are_rejected() {
    let config = Config {
        browsers: vec![
            Browser {
                id: "same".to_string(),
                name: "A".to_string(),
                path: "/a".to_string(),
                icon: None,
            },
            Browser {
                id: "same".to_string(),
                name: "B".to_string(),
                path: "/b".to_string(),
                icon: None,
            },
        ],
    };
    let r = Registry::from_parts(config, IconDir::new());
    assert!(matches!(r, Err(Error::ParseError(_))));
}

#[test]
fn missing_asset_is_served_as_no_icon() {
    // the entry names an icon, but no asset was ever loaded: lazy
    // consistency treats the missing file as "no icon", not an error
    let config = Config {
        browsers: vec![Browser {
            id: "i1".to_string(),
            name: "A".to_string(),
            path: "/a".to_string(),
            icon: Some("png".to_string()),
        }],
    };
    let reg = Registry::from_parts(config, IconDir::new()).unwrap();
    assert!(reg.get_browser_icon("i1").unwrap().is_none());
}

#[test]
fn mime_and_extension_mapping() {
    assert_eq!(ext_for_mime("image/png").as_deref(), Some("png"));
    assert_eq!(ext_for_mime("image/jpeg").as_deref(), Some("jpg"));
    assert_eq!(ext_for_mime("image/webp").as_deref(), Some("webp"));
    assert_eq!(ext_for_mime("image/avif").as_deref(), Some("avif"));
    assert_eq!(ext_for_mime("image/gif"), None);
    assert_eq!(ext_for_mime("text/plain"), None);
    assert_eq!(mime_for_ext("png"), "image/png");
    assert_eq!(mime_for_ext("jpg"), "image/jpeg");
    assert_eq!(mime_for_ext("webp"), "image/webp");
    assert_eq!(mime_for_ext("avif"), "image/avif");
    assert_eq!(mime_for_ext("ico"), "application/octet-stream");
}

#[test]
fn icon_dir_files_and_forgets() {
    let mut dir = IconDir::new();
    assert!(dir.get("a", "png").is_none());
    dir.put("a".to_string(), "png".to_string(), vec![1, 2]);
    dir.put("a".to_string(), "jpg".to_string(), vec![3]);
    dir.put("b".to_string(), "png".to_string(), vec![4]);
    assert_eq!(dir.get("a", "png"), Some(vec![1, 2]));
    assert_eq!(dir.get("a", "jpg"), Some(vec![3]));
    assert_eq!(dir.get("b", "png"), Some(vec![4]));
    // overwriting in place
    dir.put("a".to_string(), "png".to_string(), vec![9]);
    assert_eq!(dir.get("a", "png"), Some(vec![9]));
    // best-effort removal, twice
    dir.remove("a", "png");
    dir.remove("a", "png");
    assert!(dir.get("a", "png").is_none());
    assert_eq!(dir.get("a", "jpg"), Some(vec![3]));
}

#[test]
fn malformed_replacement_keeps_the_old_asset() {
    let mut reg = empty_registry();
    let mu = reg
        .add_browser(
            "P".to_string(),
            "/p".to_string(),
            Some(b64(&[5, 6])),
            Some("image/png".to_string()),
        )
        .unwrap();
    let r = reg.update_browser(
        &mu.id,
        "P2".to_string(),
        "/p2".to_string(),
        Some("%%%not base64%%%".to_string()),
        Some("image/jpeg".to_string()),
        false,
    );
    assert!(matches!(r, Err(Error::DecodeError(_))));
    // nothing was touched: the old asset is still served, the entry kept
    let icon = reg.get_browser_icon(&mu.id).unwrap().expect("old icon kept");
    assert_eq!(icon.mime_type, "image/png");
    assert_eq!(unb64(&icon.data), vec![5, 6]);
    let b = reg.get(&mu.id).unwrap();
    assert_eq!(b.icon.as_deref(), Some("png"));
    assert_eq!(b.name, "P");
    assert_eq!(b.path, "/p");
}
