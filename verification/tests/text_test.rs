use loadpilot::decimal::{parse_usize, to_decimal};
use loadpilot::map::StringMap;
use loadpilot::number::mul_div_rem;
use loadpilot::text::{
    before, is_less, join, repeat_char, replace, same_text, split_at, splitn_at, starts_with,
    strip_prefix, take_chars, trim, trim_end_matches, trim_start,
};

fn strings(parts: &[&str]) -> Vec<String> {
    parts.iter().map(|p| p.to_string()).collect()
}

#[test]
fn text_functions_agree_with_std() {
    for s in ["", "a", ".a..b.", " x y  z ", "\u{a0}tab\t\r\n", "größe", "a.b.c d"] {
        assert_eq!(split_at(s, '.'), s.split('.').collect::<Vec<_>>());
        for n in 1..5 {
            assert_eq!(splitn_at(s, n, ' '), s.splitn(n, ' ').collect::<Vec<_>>());
        }
        assert_eq!(trim(s), s.trim());
        assert_eq!(trim_start(s), s.trim_start());
        assert_eq!(trim_end_matches(s, '.'), s.trim_end_matches('.'));
        assert_eq!(starts_with(s, ".a"), s.starts_with(".a"));
        assert_eq!(strip_prefix(s, "a").as_deref(), s.strip_prefix("a"));
        assert_eq!(before(s, '.'), s.split('.').next().unwrap());
        assert_eq!(take_chars(s, 2), s.chars().take(2).collect::<String>());
        assert_eq!(replace(s, '.', "<>"), s.replace('.', "<>"));
        for t in ["", "a", "größe", "zz"] {
            assert_eq!(same_text(s, t), s == t);
            assert_eq!(is_less(s, t), s < t);
        }
    }
    assert_eq!(repeat_char('█', 3), "███");
    assert_eq!(join(&strings(&["a", "", "b"]), ", "), "a, , b");
}

#[test]
fn white_space_is_that_of_unicode() {
    for code in 0..0x3100u32 {
        if let Some(c) = char::from_u32(code) {
            let s = c.to_string();
            assert_eq!(trim(&s), s.trim(), "{code:x}");
        }
    }
}

#[test]
fn numbers_are_written_and_read() {
    for n in [0u128, 7, 10, 1234567890, u64::MAX as u128, u128::MAX] {
        assert_eq!(to_decimal(n), n.to_string());
    }
    for s in ["0", "007", "+5", "12", "18446744073709551615", "18446744073709551616", "", "+", "-1", "1 ", "x", "٣"] {
        assert_eq!(parse_usize(s), s.parse::<usize>().ok(), "{s}");
    }
}

#[test]
fn division_keeps_the_rest() {
    assert_eq!(mul_div_rem(7, 5, 3), (11, 2));
    assert_eq!(mul_div_rem(0, 5, 3), (0, 0));
    let a = u128::MAX / 2;
    assert_eq!(mul_div_rem(a, 3, 1 << 127), (2, (1 << 127) - 3));
}

#[test]
fn map_keeps_its_keys_in_order() {
    let mut m: StringMap<u32> = StringMap::new();
    assert!(m.is_empty());
    for (i, k) in ["m", "c", "x", "a", "c"].iter().enumerate() {
        m.insert(k.to_string(), i as u32);
    }
    assert_eq!(m.len(), 4);
    let keys: Vec<&str> = (0..m.len()).map(|i| m.key_at(i).as_str()).collect();
    assert_eq!(keys, vec!["a", "c", "m", "x"]);
    assert_eq!(m.get("c"), Some(&4));
    assert_eq!(*m.value_at(1), 4);
    assert!(m.contains("m"));
    assert_eq!(m.take("m"), Some(0));
    assert_eq!(m.take("m"), None);
    assert!(m.remove("a"));
    assert!(!m.remove("a"));
    assert_eq!(m.len(), 2);
}
