use lan_discovery::number::parse_u16;
use lan_discovery::order::is_at_most;
use lan_discovery::text::{ascii_lowercase, same_text, same_text_ignoring_case};
use lan_discovery::text_map::TextMap;

#[test]
fn texts_are_compared_whole() {
    assert!(same_text("ab", "ab"));
    assert!(!same_text("ab", "abc"));
    assert!(!same_text("é", "e"));
}

#[test]
fn only_ascii_letters_change_case() {
    assert_eq!(ascii_lowercase("AZaz09É[@`{"), "AZaz09É[@`{".to_ascii_lowercase());
    assert!(same_text_ignoring_case("aBc", "AbC"));
    assert!(!same_text_ignoring_case("É", "é"));
    assert!(!same_text_ignoring_case("ab", "abc"));
}

#[test]
fn numbers_are_read_as_std_reads_them() {
    for text in [
        "", "+", "-", "0", "00021118", "+7", "++7", "-0", "65535", "65536", "99999999999", "7 ",
        " 7", "1_0", "0x10", "７", "12a",
    ] {
        assert_eq!(parse_u16(text), text.parse::<u16>().ok(), "{text:?}");
    }
    for n in 0..=u16::MAX {
        assert_eq!(parse_u16(&n.to_string()), Some(n));
    }
}

#[test]
fn texts_are_ordered_by_their_bytes() {
    let texts = ["", "a", "aa", "b", "B", "10.0.0.10", "10.0.0.2", "é", "z", "\u{ffff}", "😀"];
    for a in texts {
        for b in texts {
            assert_eq!(is_at_most(a, b), a <= b, "{a:?} {b:?}");
        }
    }
}

#[test]
fn map_keeps_one_value_for_each_key() {
    let mut map: TextMap<String> = TextMap::new();
    assert_eq!(map.len(), 0);
    map.insert("b".to_owned(), "1".to_owned());
    map.insert("a".to_owned(), "2".to_owned());
    map.insert("b".to_owned(), "3".to_owned());
    map.insert_if_absent("a".to_owned(), "4".to_owned());
    map.insert_if_absent("c".to_owned(), "5".to_owned());
    assert_eq!(map.len(), 3);
    assert_eq!(map.get("b").map(String::as_str), Some("3"));
    assert_eq!(map.get("a").map(String::as_str), Some("2"));
    assert_eq!(map.get("d"), None);
    assert!(map.contains_key("c"));
    assert_eq!(map.sorted_keys(), ["a", "b", "c"]);
}

#[test]
fn extending_a_map_prefers_the_other() {
    let mut map: TextMap<String> = TextMap::new();
    map.insert("a".to_owned(), "1".to_owned());
    map.insert("b".to_owned(), "2".to_owned());
    let mut other: TextMap<String> = TextMap::new();
    other.insert("b".to_owned(), "3".to_owned());
    other.insert("c".to_owned(), "4".to_owned());
    map.extend(other);
    let mut entries: Vec<(String, String)> = (0..map.len())
        .map(|i| (map.entry(i).0.clone(), map.entry(i).1.clone()))
        .collect();
    entries.sort();
    let expected = [("a", "1"), ("b", "3"), ("c", "4")];
    assert_eq!(entries.len(), expected.len());
    for (entry, (key, value)) in entries.iter().zip(expected) {
        assert_eq!((entry.0.as_str(), entry.1.as_str()), (key, value));
    }
}
