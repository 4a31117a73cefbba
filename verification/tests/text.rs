use server_agent::text::{
    integer_text, is_whitespace, natural_text, split, split_whitespace, trim,
};

fn list(items: &[&str]) -> Vec<String> {
    let mut res = Vec::new();
    for item in items {
        res.push(item.to_string());
    }
    res
}

#[test]
fn white_space_is_that_of_unicode() {
    let mut count = 0;
    for p in 0..=0x10FFFFu32 {
        if let Some(c) = char::from_u32(p) {
            assert_eq!(is_whitespace(c), c.is_whitespace(), "U+{:04X}", p);
            if is_whitespace(c) {
                count += 1;
            }
        }
    }
    assert_eq!(count, 25);
}

const LINES: [&str; 12] = [
    "",
    " ",
    "\n",
    "list",
    "list\n",
    "  select\tclient-a  \r\n",
    "a  b   c",
    "\u{3000}命令 \u{2003} 执行\u{85}",
    "x\u{200B}y",
    "ls -la | grep 'a b' \n",
    "\u{a0}\u{1680}z",
    "é\u{301} ß",
];

#[test]
fn trim_takes_white_space_off_both_ends() {
    assert_eq!(trim("  ls -la \n"), "ls -la");
    assert_eq!(trim(" \t\r\n"), "");
    for line in LINES {
        assert_eq!(trim(line), line.trim());
        assert_eq!(trim(&trim(line)), trim(line));
    }
}

#[test]
fn words_are_split_at_white_space() {
    assert_eq!(split_whitespace(" select  client-a "), list(&["select", "client-a"]));
    assert_eq!(split_whitespace("   "), list(&[]));
    for line in LINES {
        let expected: Vec<String> = line.split_whitespace().map(|w| w.to_string()).collect();
        assert_eq!(split_whitespace(line), expected);
        assert_eq!(split_whitespace(&trim(line)), expected);
    }
}

#[test]
fn words_hold_all_that_is_not_white_space() {
    for line in LINES {
        let solid: String = line.chars().filter(|c| !c.is_whitespace()).collect();
        assert_eq!(split_whitespace(line).concat(), solid);
    }
}

#[test]
fn fields_are_split_at_separators() {
    assert_eq!(split("a,b,c", ','), list(&["a", "b", "c"]));
    assert_eq!(split("", ','), list(&[""]));
    assert_eq!(split(",", ','), list(&["", ""]));
    assert_eq!(split(" a ,,b ", ','), list(&[" a ", "", "b "]));
    assert_eq!(split("令牌一,令牌二", ','), list(&["令牌一", "令牌二"]));
}

#[test]
fn fields_join_to_the_text() {
    for text in ["", ",", "a", "a,", ",a", "a,,b", "x,y,z,"] {
        assert_eq!(split(text, ',').join(","), text);
        for field in split(text, ',') {
            assert!(!field.contains(','));
        }
    }
}

#[test]
fn numbers_are_written_in_decimal() {
    assert_eq!(natural_text(0), "0");
    assert_eq!(natural_text(9), "9");
    assert_eq!(natural_text(10), "10");
    assert_eq!(natural_text(1234567890), "1234567890");
    assert_eq!(natural_text(u64::MAX), u64::MAX.to_string());
    assert_eq!(integer_text(-1), "-1");
    assert_eq!(integer_text(-45), "-45");
    assert_eq!(integer_text(0), "0");
    assert_eq!(integer_text(i64::MIN), i64::MIN.to_string());
    assert_eq!(integer_text(i64::MAX), i64::MAX.to_string());
}
