use dota_localization_changer::kvmap::KeyValues;
use dota_localization_changer::kvparser::{find_key_span, replace_kv_pairs};
use dota_localization_changer::text::is_whitespace;

fn kv(pairs: &[(&str, &str)]) -> KeyValues {
    let mut m = KeyValues::new();
    for (k, v) in pairs {
        m.insert(k.to_string(), v.to_string());
    }
    m
}

#[test]
fn empty_replacements_return_text_unchanged() {
    let text = "\"lang\"\r\n{\n\t\"a\" \"b\"\n}";
    assert_eq!(replace_kv_pairs(text, &KeyValues::new()), text);
}

#[test]
fn matching_key_is_rewritten_with_its_quotes_kept() {
    let text = "\t\t\"DOTA_Tooltip_ability_axe\"\t\"Берсерк\"\n";
    let out = replace_kv_pairs(text, &kv(&[("DOTA_Tooltip_ability_axe", "Топор")]));
    assert_eq!(out, "\t\t\"\"DOTA_Tooltip_ability_axe\"\" \"Топор\"\n");
}

#[test]
fn other_lines_are_copied_and_each_line_ends_with_newline() {
    let text = "\"lang\"\n{\n// \"x\" \"y\"\n\n\t\"other\" \"v\"\n}";
    let out = replace_kv_pairs(text, &kv(&[("x", "z")]));
    assert_eq!(out, "\"lang\"\n{\n// \"x\" \"y\"\n\n\t\"other\" \"v\"\n}\n");
}

#[test]
fn carriage_returns_before_newlines_are_dropped() {
    let text = "\"a\" \"1\"\r\n\"b\" \"2\"\r\n";
    let out = replace_kv_pairs(text, &kv(&[("b", "3")]));
    assert_eq!(out, "\"a\" \"1\"\n\"\"b\"\" \"3\"\n");
}

#[test]
fn escaped_quotes_in_keys_and_values() {
    let text = "  \"say \\\"hi\\\"\" \"old\" // note\n";
    let out = replace_kv_pairs(text, &kv(&[("say \"hi\"", "a \"b\"")]));
    assert_eq!(out, "  \"\"say \\\"hi\\\"\"\" \"a \\\"b\\\"\"\n");
}

#[test]
fn line_without_a_value_is_kept() {
    let text = "\"Tokens\"\n";
    assert_eq!(replace_kv_pairs(text, &kv(&[("Tokens", "x")])), "\"Tokens\"\n");
}

#[test]
fn rewriting_twice_is_rewriting_once() {
    let text = "\"lang\"\n{\n\t\"k1\"\t\"v1\"\n\t\"k2\" \"v2\" // c\n\t\"k3\" \"v3\"\n}\n";
    let repl = kv(&[("k1", "n1"), ("k2", "with \"quote\""), ("", "e")]);
    let once = replace_kv_pairs(text, &repl);
    let twice = replace_kv_pairs(&once, &repl);
    assert_eq!(once, twice);
    assert!(once.contains("\t\"\"k1\"\" \"n1\"\n"));
    assert!(once.contains("\t\"k3\" \"v3\"\n"));
}

#[test]
fn whitespace_agrees_with_std() {
    for n in 0u32..=0x10FFFF {
        if let Some(c) = char::from_u32(n) {
            assert_eq!(is_whitespace(c), c.is_whitespace(), "char {:x}", n);
        }
    }
}

fn kv_pattern() -> regex::Regex {
    regex::Regex::new(r#"("(?:[^"\\]|\\.)*")\s*("(?:[^"\\]|\\.)*")(?:\s*//\s*(.*))?"#).unwrap()
}

fn regex_key(re: &regex::Regex, line: &str) -> Option<String> {
    re.captures(line).map(|c| c[1].to_string())
}

fn own_key(line: &str) -> Option<String> {
    let chars: Vec<char> = line.chars().collect();
    find_key_span(&chars).map(|(p, e)| chars[p..e].iter().collect())
}

#[test]
fn key_search_agrees_with_the_regular_expression() {
    let samples = [
        "\"a\" \"b\"",
        "\"a\"\"b\"",
        "\"a\"\t \"b\" // c",
        "x \"a\" \"b\"",
        "\"a\" x \"b\" \"c\"",
        "\"\" \"\"",
        "\" \" \"x\"",
        "\"a\\\"b\" \"c\"",
        "\"a\\\\\" \"c\"",
        "\"a\\",
        "\"a\" \"b",
        "\"abc\"",
        "\"é\u{2003}\" \u{3000}\"ü\"",
        "\"a\\\nb\" \"c\"",
        "\"\"\"\" \"x\"",
        "\"\"k\"\" \"v\"",
        "\"\" \"\"k\" \"v\"",
        "no quotes at all",
        "\"x\" \"y\" \"z\" \"w\"",
        "\\\"a\" \"b\"",
    ];
    let re = kv_pattern();
    for s in samples {
        assert_eq!(own_key(s), regex_key(&re, s), "line {:?}", s);
    }
    let alphabet = ['"', '\\', ' ', 'a', '\t', '/', '\u{a0}'];
    let mut buf = Vec::new();
    for n in 0..(7usize.pow(5)) {
        buf.clear();
        let mut k = n;
        for _ in 0..5 {
            buf.push(alphabet[k % 7]);
            k /= 7;
        }
        let s: String = buf.iter().collect();
        assert_eq!(own_key(&s), regex_key(&re, &s), "line {:?}", s);
    }
}
