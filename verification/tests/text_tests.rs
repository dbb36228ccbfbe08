use dota_localization_changer::text::{contains_exec, replace_all_exec, trim_chars};

fn chars(s: &str) -> Vec<char> {
    s.chars().collect()
}

#[test]
fn trim_matches_std() {
    for s in ["", "  ", " a ", "\u{3000}x\u{a0}", "\tab c\r", "abc"] {
        let t: String = trim_chars(&chars(s)).into_iter().collect();
        assert_eq!(t, s.trim());
    }
}

#[test]
fn contains_matches_std() {
    for (a, b) in [("axe", "x"), ("axe", ""), ("", ""), ("", "a"), ("lina", "ina"), ("lina", "inaa"), ("abab", "bab")] {
        assert_eq!(contains_exec(&chars(a), &chars(b)), a.contains(b));
    }
}

#[test]
fn replace_all_matches_std() {
    for (s, p, r) in [("a.json.json", ".json", ""), ("aaa", "aa", "b"), ("x\\\"y", "\\\"", "\""), ("\"q\"", "\"", "\\\"")] {
        assert_eq!(replace_all_exec(&chars(s), &chars(p), &chars(r)), s.replace(p, r));
    }
}
