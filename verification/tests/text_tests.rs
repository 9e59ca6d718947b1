use mascot::levenshtein::levenshtein;
use mascot::matching::best_match;
use mascot::text::{chars_of, is_whitespace, trim_chars};
use mascot::platform::foreground_exe;
use mascot::translit::{skeleton, translit};
use mascot::urlenc::{fill_search_template, urlencode};

#[test]
fn whitespace_matches_std_for_every_char() {
    for u in 0u32..=0x10FFFF {
        if let Some(c) = char::from_u32(u) {
            assert_eq!(is_whitespace(c), c.is_whitespace(), "char U+{u:04X}");
        }
    }
}

#[test]
fn trim_removes_unicode_whitespace() {
    let v = chars_of("\u{3000}\t hello world \n\u{A0}");
    let t: String = trim_chars(&v).into_iter().collect();
    assert_eq!(t, "hello world");
    let empty: String = trim_chars(&chars_of(" \t ")).into_iter().collect();
    assert_eq!(empty, "");
}

#[test]
fn levenshtein_known_values() {
    assert_eq!(levenshtein("kitten", "sitting"), 3);
    assert_eq!(levenshtein("", "abc"), 3);
    assert_eq!(levenshtein("abc", ""), 3);
    assert_eq!(levenshtein("маскот", "москот"), 1);
    assert_eq!(levenshtein("маскот", "маскот"), 0);
    assert_eq!(levenshtein("flaw", "lawn"), 2);
}

#[test]
fn levenshtein_is_symmetric_and_triangular() {
    let words = ["", "a", "steam", "stem", "телеграм", "telegram", "zed", "зед"];
    for a in words {
        for b in words {
            assert_eq!(levenshtein(a, b), levenshtein(b, a));
            for c in words {
                assert!(levenshtein(a, c) <= levenshtein(a, b) + levenshtein(b, c));
            }
        }
    }
}

#[test]
fn lowercase_is_unicode_lowercase() {
    assert_eq!(
        foreground_exe(Some("C:\\Apps\\ПОМОЩНИК Открой ZED.EXE".to_string())),
        Some("помощник открой zed.exe".to_string())
    );
}

#[test]
fn translit_examples() {
    assert_eq!(translit("зед"), "zed");
    assert_eq!(translit("ЗЕД"), "zed");
    assert_eq!(translit("щука"), "schuka");
    assert_eq!(translit("объявление"), "obyavlenie");
    assert_eq!(translit("abc-1"), "abc-1");
    assert_eq!(translit("Ёжик"), "ezhik");
}

#[test]
fn skeleton_examples() {
    assert_eq!(skeleton("телеграм"), "tlgrm");
    assert_eq!(skeleton("steam"), "stm");
    assert_eq!(skeleton("Telegram"), "tlgrm");
    assert_eq!(skeleton("ббб"), "b");
    assert_eq!(skeleton(""), "");
}

#[test]
fn urlencode_examples() {
    assert_eq!(urlencode("a b"), "a+b");
    assert_eq!(urlencode("AZaz09-_.~"), "AZaz09-_.~");
    assert_eq!(urlencode("ю"), "%D1%8E");
    assert_eq!(urlencode("a&b=c"), "a%26b%3Dc");
    assert_eq!(urlencode(""), "");
}

#[test]
fn search_template_examples() {
    assert_eq!(
        fill_search_template("https://www.google.com/search?q={q}", "погода завтра"),
        "https://www.google.com/search?q=%D0%BF%D0%BE%D0%B3%D0%BE%D0%B4%D0%B0+%D0%B7%D0%B0%D0%B2%D1%82%D1%80%D0%B0"
    );
    assert_eq!(fill_search_template("https://x/{q}/{q}", "a b"), "https://x/a+b/a+b");
    assert_eq!(fill_search_template("https://x/", "a"), "https://x/");
}

fn keys(k: &[&str]) -> Vec<String> {
    k.iter().map(|s| s.to_string()).collect()
}

#[test]
fn best_match_exact_key_wins() {
    let k = keys(&["steam", "telegram", "zed"]);
    assert_eq!(best_match("telegram", &k), Some(1));
    assert_eq!(best_match("  zed  ", &k), Some(2));
}

#[test]
fn best_match_substring_and_fuzzy() {
    let k = keys(&["telegram desktop", "steam"]);
    // substring: 0.6 + 0.3 * 8/16 = 0.75
    assert_eq!(best_match("telegram", &k), Some(0));
    // one edit away: 1 - 1/5 = 0.8
    assert_eq!(best_match("stem", &keys(&["steam", "discord"])), Some(0));
    // the sound skeleton bridges scripts: "телеграм" -> "tlgrm" == "tlgrm"
    assert_eq!(best_match("телеграм", &keys(&["discord", "telegram"])), Some(1));
}

#[test]
fn best_match_rejects_far_and_empty() {
    let k = keys(&["steam", "discord"]);
    assert_eq!(best_match("калькулятор", &k), None);
    assert_eq!(best_match("   ", &k), None);
    assert_eq!(best_match("steam", &Vec::new()), None);
}

#[test]
fn best_match_ties_go_to_the_first_key() {
    let k = keys(&["abcd", "abce"]);
    assert_eq!(best_match("abcx", &k), Some(0));
}
