use collie::model::item::{ItemStatus, ItemToCreate};

fn entry(title: &str, link: &str, description: &str) -> ItemToCreate {
    ItemToCreate {
        author: None,
        title: title.to_string(),
        description: description.to_string(),
        link: link.to_string(),
        status: ItemStatus::Unread,
        published_at: 0,
        feed: 1,
    }
}

#[test]
fn fingerprint_has_a_known_digest() {
    // SHA-1 of ":;ab" — the pair encoded as a colon per title character,
    // a semicolon, the title, the link
    let fp = entry("a", "b", "").fingerprint();
    assert_eq!(fp, "62f0eba977dc9b82ee875501cd362c6f9c657653");
    // SHA-1 of ":::::;Hellohttps://example.com/x"
    let fp = entry("Hello", "https://example.com/x", "").fingerprint();
    assert_eq!(fp, "254414591068c0b73e10ca2081ba6ae29b69a28a");
}

#[test]
fn fingerprint_is_stable_across_recomputation() {
    let a = entry("Hello", "https://example.com/x", "first body");
    assert_eq!(a.fingerprint(), a.fingerprint());
}

#[test]
fn fingerprint_ignores_description_changes() {
    let a = entry("Hello", "https://example.com/x", "first body");
    let b = entry("Hello", "https://example.com/x", "a completely rewritten body");
    assert_eq!(a.fingerprint(), b.fingerprint());
}

#[test]
fn fingerprint_changes_with_title_or_link() {
    let base = entry("Hello", "https://example.com/x", "");
    let other_title = entry("Hi", "https://example.com/x", "");
    let other_link = entry("Hello", "https://example.com/y", "");
    assert_ne!(base.fingerprint(), other_title.fingerprint());
    assert_ne!(base.fingerprint(), other_link.fingerprint());
    assert_eq!(other_title.fingerprint(), "82a85134fb4679f351fc3da6eb7518fe9a19f501");
    assert_eq!(other_link.fingerprint(), "555adc664471d405278de5d8cce28215e494975c");
}

#[test]
fn fingerprint_encoding_is_unambiguous() {
    // moving a character across the title/link boundary changes the digest
    // input, because the encoding prefixes the title's length
    let a = entry("x:", "y", "");
    let b = entry("x", ":y", "");
    assert_ne!(a.fingerprint(), b.fingerprint());
    assert_eq!(a.fingerprint(), "3c0675f4ea2d8ae86dfd64e109a0d5401646d0d3");
    assert_eq!(b.fingerprint(), "92bec5f1537bb31fecd94c8468883bbcc94f9696");
}

#[test]
fn fingerprint_is_forty_hex_digits() {
    let fp = entry("anything", "anywhere", "").fingerprint();
    assert_eq!(fp.len(), 40);
    assert!(fp.chars().all(|c| c.is_ascii_hexdigit()));
}
