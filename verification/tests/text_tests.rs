use gdem::text;

fn cs(s: &str) -> Vec<char> {
    s.chars().collect()
}

#[test]
fn chars_and_strings_convert_both_ways() {
    assert_eq!(text::chars_of("añb"), vec!['a', 'ñ', 'b']);
    assert_eq!(text::string_of(&cs("añb")), "añb");
    assert_eq!(text::string_of(&Vec::new()), "");
}

#[test]
fn slice_takes_the_half_open_range() {
    assert_eq!(text::slice_chars(&cs("abcdef"), 1, 4), cs("bcd"));
    assert_eq!(text::slice_chars(&cs("abcdef"), 2, 2), cs(""));
}

#[test]
fn equal_compares_char_by_char() {
    assert!(text::equal("abc", "abc"));
    assert!(!text::equal("abc", "abd"));
    assert!(!text::equal("abc", "ab"));
    assert!(text::equal("", ""));
}

#[test]
fn find_text_gives_the_first_place() {
    assert_eq!(text::find_text(&cs("abcabc"), &cs("bc")), Some(1));
    assert_eq!(text::find_text(&cs("abcabc"), &cs("cb")), None);
    assert_eq!(text::find_text(&cs("abc"), &cs("")), Some(0));
    assert_eq!(text::find_text(&cs(""), &cs("")), Some(0));
    assert_eq!(text::find_text(&cs("ab"), &cs("abc")), None);
    assert_eq!(text::find_text(&cs("xxab"), &cs("ab")), Some(2));
}

#[test]
fn contains_prefix_and_suffix() {
    assert!(text::contains("Godot_v4.4.1-stable_win64.exe.zip", "win64"));
    assert!(!text::contains("Godot_v4.4.1-stable_win64.exe.zip", "linux"));
    assert!(text::has_prefix("4.4.1-stable", "4.4"));
    assert!(!text::has_prefix("4.4.1-stable", "4.5"));
    assert!(text::has_prefix("abc", ""));
    assert!(!text::has_prefix("ab", "abc"));
    assert!(text::has_suffix("a.zip", ".zip"));
    assert!(!text::has_suffix("a.zip.txt", ".zip"));
    assert!(!text::has_suffix("ip", ".zip"));
}

#[test]
fn replace_takes_every_occurrence_from_the_left() {
    assert_eq!(text::replace("a_b_c", "_", "."), "a.b.c");
    assert_eq!(text::replace("aaa", "aa", "b"), "ba");
    assert_eq!(text::replace("abc", "x", "y"), "abc");
    assert_eq!(text::replace("abc", "b", ""), "ac");
    assert_eq!(text::replace("", "a", "b"), "");
}

#[test]
fn head_stops_before_the_separator() {
    assert_eq!(text::head("4.4.1-stable", '.'), "4");
    assert_eq!(text::head("2024-05-01T10:00:00Z", 'T'), "2024-05-01");
    assert_eq!(text::head("nodots", '.'), "nodots");
    assert_eq!(text::head(".x", '.'), "");
    assert_eq!(text::position_of(&cs("abc"), 'c'), 2);
    assert_eq!(text::position_of(&cs("abc"), 'z'), 3);
}

#[test]
fn lines_split_at_line_feeds() {
    assert_eq!(text::lines(&cs("a\nb")), vec![cs("a"), cs("b")]);
    assert_eq!(text::lines(&cs("a\r\nb\n")), vec![cs("a"), cs("b")]);
    assert_eq!(text::lines(&cs("")), Vec::<Vec<char>>::new());
    assert_eq!(text::lines(&cs("\n\nx")), vec![cs(""), cs(""), cs("x")]);
}

#[test]
fn lines_agree_with_the_standard_library() {
    for s in ["a\nb", "a\r\nb\n", "", "\n", "x\r", "one\n\ntwo\r\n\r\n", "\r\n"] {
        let expected: Vec<Vec<char>> = s.lines().map(|l| l.chars().collect()).collect();
        assert_eq!(text::lines(&cs(s)), expected, "{:?}", s);
    }
}

#[test]
fn trim_drops_blanks_at_both_ends() {
    assert_eq!(text::trim(&cs("  a b \t\n")), cs("a b"));
    assert_eq!(text::trim(&cs("   ")), cs(""));
    assert_eq!(text::trim(&cs("ab")), cs("ab"));
}

#[test]
fn dictionary_order_on_chars() {
    assert!(text::le_chars(&cs("3.x"), &cs("4.x")));
    assert!(!text::le_chars(&cs("4.x"), &cs("3.x")));
    assert!(text::le_chars(&cs("4.4"), &cs("4.4.1")));
    assert!(text::le_chars(&cs("a"), &cs("a")));
    assert!(text::le_chars(&cs(""), &cs("a")));
    assert!(!text::le_chars(&cs("b"), &cs("abc")));
}

#[test]
fn white_space_is_marked_character_by_character() {
    assert_eq!(text::blanks(&cs(" a\tb\n")), vec![true, false, true, false, true]);
    assert_eq!(text::blanks(&cs("\u{a0}x\u{3000}")), vec![true, false, true]);
    assert_eq!(text::blanks(&cs("")), Vec::<bool>::new());
}

#[test]
fn trimming_drops_the_marked_ends_only() {
    let marks = vec![true, true, false, true, false, true];
    assert_eq!(text::trim_marked(&cs("xxaxbx"), &marks), cs("axb"));
    assert_eq!(text::trim_marked(&cs("ab"), &vec![true, true]), cs(""));
    assert_eq!(text::trim_marked(&cs("ab"), &vec![false, false]), cs("ab"));
    assert_eq!(text::trim_marked(&cs(""), &vec![]), cs(""));
}
