use weave_cli::strmap::StrMap;
use weave_cli::text::{compare_text, join, replace_text, sort_dedup, text_eq, Order};

fn strings(items: &[&str]) -> Vec<String> {
    items.iter().map(|s| s.to_string()).collect()
}

#[test]
fn comparison_follows_str_order() {
    for (a, b) in [("a", "b"), ("ab", "b"), ("", "a"), ("Z", "a"), ("z", "é"), ("abc", "abd"), ("ab", "abc")] {
        assert!(matches!(compare_text(a, b), Order::Less), "{} < {}", a, b);
        assert!(matches!(compare_text(b, a), Order::Greater));
        assert_eq!(a < b, true);
    }
    assert!(matches!(compare_text("same", "same"), Order::Equal));
    assert!(text_eq("héllo", "héllo"));
    assert!(!text_eq("hello", "hell"));
}

#[test]
fn sort_dedup_matches_std() {
    let v = strings(&["zeta", "alpha", "Beta", "alpha", "é", "beta", "zeta"]);
    let mut expected = v.clone();
    expected.sort();
    expected.dedup();
    assert_eq!(sort_dedup(&v), expected);
    assert!(sort_dedup(&Vec::new()).is_empty());
}

#[test]
fn join_and_replace() {
    assert_eq!(join(&strings(&["a", "b", "c"]), ", "), "a, b, c");
    assert_eq!(join(&strings(&["only"]), ", "), "only");
    assert_eq!(join(&Vec::new(), ", "), "");
    assert_eq!(replace_text("aaaa", "aa", "b"), "bb");
    assert_eq!(replace_text("xyz", "q", "r"), "xyz");
    assert_eq!(replace_text("npx npx", "npx ", "bunx "), "bunx npx");
}

#[test]
fn map_insert_get_take() {
    let mut m: StrMap<u32> = StrMap::new();
    m.insert("b".to_string(), 2);
    m.insert("a".to_string(), 1);
    m.insert("c".to_string(), 3);
    m.insert("b".to_string(), 20);
    assert_eq!(m.keys(), strings(&["a", "b", "c"]));
    assert_eq!(m.get("b"), Some(&20));
    assert_eq!(m.take("a"), Some(1));
    assert_eq!(m.take("a"), None);
    assert_eq!(m.len(), 2);
    m.retain_keys(&strings(&["c", "x"]));
    assert_eq!(m.keys(), strings(&["c"]));
    assert_eq!(*m.value_at(0), 3);
}
