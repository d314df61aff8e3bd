use listload::codec::write_chars;
use listload::codec::write_num;
use listload::codec::write_opt_chars;
use listload::hexnum::hex16;
use listload::hexnum::parse_hex16;
use listload::target::Target;
use listload::target::TargetError;
use listload::target_list::LoadError;
use listload::target_list::TargetList;

fn target(urls: &[&str], file: &str, comment: Option<&str>) -> Target {
    Target::new(
        urls.iter().map(|u| String::from(*u)).collect(),
        String::from(file),
        comment.map(String::from),
    )
    .unwrap()
}

#[test]
fn hex16_renders_fixed_width() {
    assert_eq!(hex16(0), "0000000000000000");
    assert_eq!(hex16(255), "00000000000000ff");
    assert_eq!(hex16(0xdead_beef), "00000000deadbeef");
    assert_eq!(hex16(u64::MAX), "ffffffffffffffff");
}

#[test]
fn hex16_parses_back() {
    for n in [0u64, 1, 255, 4096, 0xdead_beef, u64::MAX] {
        let s = hex16(n);
        assert_eq!(parse_hex16(s.as_str(), 0), Some((n, 16)));
    }
    assert_eq!(parse_hex16("zzzzzzzzzzzzzzzz", 0), None);
    assert_eq!(parse_hex16("00000000000000f", 0), None);
    assert_eq!(parse_hex16("00000000000000FF", 0), None);
}

#[test]
fn target_requires_a_url() {
    assert!(matches!(
        Target::new(Vec::new(), String::from("a"), None),
        Err(TargetError::NoUrls)
    ));
}

#[test]
fn target_requires_http_schemes() {
    for bad in ["ftp://example.com/f", "file:///etc/hosts", "not a url", "example.com/f"] {
        assert!(
            matches!(
                Target::new(vec![String::from(bad)], String::from("a"), None),
                Err(TargetError::BadScheme)
            ),
            "{bad} should be rejected"
        );
    }
    let t = target(&["http://example.com/f", "https://mirror.example.org/f"], "f", None);
    assert_eq!(t.urls().len(), 2);
}

#[test]
fn target_render() {
    let plain = target(&["http://example.com/f"], "pics/f.jpg", None);
    assert_eq!(plain.render(), "pics/f.jpg");
    let commented = target(&["http://example.com/f"], "pics/f.jpg", Some("the cat"));
    assert_eq!(commented.render(), "the cat: pics/f.jpg");
}

#[test]
fn empty_list_roundtrip() {
    let list = TargetList::new("empty_one", None).unwrap();
    let doc = list.to_document();
    let back = TargetList::parse_document(doc.as_str()).unwrap();
    assert_eq!(back, list);
}

#[test]
fn full_list_roundtrip() {
    let mut list = TargetList::new("my_4_funny_pictures", Some("holiday\nalbum: 2024")).unwrap();
    list.add_target(target(
        &["http://example.com/a.jpg", "https://mirror.example.org/a.jpg"],
        "pics/a.jpg",
        Some("first"),
    ));
    list.add_target(target(&["https://example.com/b.jpg"], "/tmp/b.jpg", None));
    list.add_target(target(&["http://example.com/c.jpg"], "pics/c: with colon\nand line", None));
    assert_eq!(list.target_count(), 3);

    let doc = list.to_document();
    let back = TargetList::parse_document(doc.as_str()).unwrap();
    assert_eq!(back, list);
    assert_eq!(back.name(), "my_4_funny_pictures");
    assert_eq!(back.comment().as_deref(), Some("holiday\nalbum: 2024"));
    assert_eq!(back.target_count(), 3);
    assert_eq!(back.target_at(0).urls().len(), 2);
    assert_eq!(back.target_at(1).file(), "/tmp/b.jpg");
    assert_eq!(back.target_at(2).comment(), &None);
}

#[test]
fn many_targets_roundtrip() {
    let mut list = TargetList::new("big_list", None).unwrap();
    for i in 0..100 {
        list.add_target(target(
            &[&format!("http://example.com/{i}")],
            &format!("files/{i}"),
            if i % 2 == 0 { Some("even") } else { None },
        ));
    }
    let doc = list.to_document();
    let back = TargetList::parse_document(doc.as_str()).unwrap();
    assert_eq!(back, list);
}

#[test]
fn list_document_is_strict() {
    let list = TargetList::new("default", None).unwrap();
    let mut doc = list.to_document();
    doc.push('\n');
    assert!(TargetList::parse_document(doc.as_str()).is_none());
    assert!(TargetList::parse_document("").is_none());
    assert!(TargetList::parse_document("0000000000000000").is_none());
}

#[test]
fn list_load_checks_name() {
    let list = TargetList::new("default", None).unwrap();
    let doc = list.to_document();
    assert!(TargetList::from_document("default", doc.as_str()).is_ok());
    assert!(matches!(
        TargetList::from_document("other", doc.as_str()),
        Err(LoadError::NameMismatch)
    ));
    assert!(matches!(
        TargetList::from_document("default", "junk"),
        Err(LoadError::ParseFailed)
    ));
}

#[test]
fn document_with_urlless_target_is_rejected() {
    // A hand-made document claiming one target with zero URLs breaks the
    // target invariant and must not parse.
    let mut doc = String::new();
    write_chars(&mut doc, "default");
    write_opt_chars(&mut doc, &None);
    write_num(&mut doc, 1);
    write_num(&mut doc, 0);
    write_chars(&mut doc, "dest");
    write_opt_chars(&mut doc, &None);
    assert!(TargetList::parse_document(doc.as_str()).is_none());
}
