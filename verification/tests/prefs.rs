use vuoom::prefs::{get_pref, lookup, put, set_pref};

fn text(s: &str) -> String {
    s.to_string()
}

#[test]
fn a_stored_preference_is_read_back() {
    let first = set_pref("", text("tour"), text("seen"));
    assert_eq!(first, "{\n  \"tour\": \"seen\"\n}");
    assert_eq!(get_pref(&first, "tour"), Some(text("seen")));
    assert_eq!(get_pref(&first, "theme"), None);
    let both = set_pref(&first, text("theme"), text("\"dark\"\n\u{e9}"));
    assert_eq!(get_pref(&both, "tour"), Some(text("seen")));
    assert_eq!(get_pref(&both, "theme"), Some(text("\"dark\"\n\u{e9}")));
    let changed = set_pref(&both, text("tour"), text(""));
    assert_eq!(get_pref(&changed, "tour"), Some(text("")));
    assert_eq!(get_pref(&changed, "theme"), get_pref(&both, "theme"));
}

#[test]
fn an_unreadable_text_holds_nothing() {
    assert_eq!(get_pref("{ not json", "tour"), None);
    assert_eq!(get_pref("[1, 2]", "tour"), None);
    assert_eq!(get_pref("{\"tour\": 1}", "tour"), None);
    assert_eq!(set_pref("{ not json", text("a"), text("b")), set_pref("", text("a"), text("b")));
}

#[test]
fn entries_stay_in_the_order_of_their_keys() {
    let mut entries = Vec::new();
    for key in ["b", "ab", "a", "z", "\u{e9}", "b", ""] {
        let value = format!("{key}!");
        put(&mut entries, text(key), value);
    }
    let keys: Vec<&str> = entries.iter().map(|e| e.0.as_str()).collect();
    assert_eq!(keys, vec!["", "a", "ab", "b", "z", "\u{e9}"]);
    put(&mut entries, text("ab"), text("new"));
    assert_eq!(lookup(&entries, "ab"), Some(text("new")));
    assert_eq!(lookup(&entries, "abc"), None);
    assert_eq!(entries.len(), 6);
}
