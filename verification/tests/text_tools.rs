use plc_secure_checker::text::{
    all_digits_in, chars_of, contains_str, ends_with_str, find_in, lines_of,
    parse_number, push_i64, push_usize, same_text, slice_of, starts_with_str, string_of,
    stripped_both, stripped_end, to_lower, to_upper, trimmed, trimmed_end, trimmed_start,
    words_of,
};

fn cs(s: &str) -> Vec<char> {
    s.chars().collect()
}

fn st(v: &Vec<char>) -> String {
    v.iter().collect()
}

#[test]
fn chars_and_strings_convert_both_ways() {
    assert_eq!(chars_of("a%é"), vec!['a', '%', 'é']);
    assert_eq!(string_of(&vec!['O', 'B', '1']), "OB1");
    assert_eq!(string_of(&chars_of("")), "");
}

#[test]
fn case_folding_touches_ascii_letters_only() {
    assert_eq!(st(&to_upper(&cs("ob1_Prev.cycle é ß"))), "OB1_PREV.CYCLE é ß");
    assert_eq!(st(&to_lower(&cs("ReadOnly É"))), "readonly É");
    assert_eq!(st(&to_upper(&cs("az{`"))), "AZ{`");
    assert_eq!(st(&to_lower(&cs("AZ[@"))), "az[@");
}

#[test]
fn find_gives_the_first_position() {
    assert_eq!(find_in(&cs("a := b := c"), &cs(":=")), Some(2));
    assert_eq!(find_in(&cs("abc"), &cs("abcd")), None);
    assert_eq!(find_in(&cs("abc"), &cs("")), Some(0));
    assert_eq!(find_in(&cs(""), &cs("")), Some(0));
    assert_eq!(find_in(&cs("xxTHEN"), &cs("THEN")), Some(2));
    assert_eq!(find_in(&cs("THE"), &cs("THEN")), None);
}

#[test]
fn contains_and_affixes() {
    assert!(contains_str(&cs("MY_OB100"), "OB1"));
    assert!(!contains_str(&cs("MY_OB2"), "OB1"));
    assert!(starts_with_str(&cs("IF x"), "IF "));
    assert!(!starts_with_str(&cs("I"), "IF"));
    assert!(ends_with_str(&cs("F();"), ");"));
    assert!(!ends_with_str(&cs(";"), ");"));
    assert!(same_text(&cs("abc"), &cs("abc")));
    assert!(!same_text(&cs("abc"), &cs("abd")));
    assert!(!same_text(&cs("abc"), &cs("ab")));
}

#[test]
fn slices_copy_a_range() {
    assert_eq!(st(&slice_of(&cs("hello"), 1, 3)), "el");
    assert_eq!(st(&slice_of(&cs("hello"), 5, 5)), "");
}

#[test]
fn trimming_removes_unicode_white_space() {
    assert_eq!(st(&trimmed(&cs("  \t x y \r\n"))), "x y");
    assert_eq!(st(&trimmed(&cs("\u{a0}\u{2003}x\u{3000}"))), "x");
    assert_eq!(st(&trimmed(&cs("   "))), "");
    assert_eq!(st(&trimmed(&cs(""))), "");
    assert_eq!(st(&trimmed_start(&cs("  x "))), "x ");
    assert_eq!(st(&trimmed_end(&cs("  x "))), "  x");
    assert_eq!(st(&trimmed(&cs("\u{200b}x"))), "\u{200b}x");
}

#[test]
fn stripping_removes_runs_of_one_character() {
    assert_eq!(st(&stripped_end(&cs("x;;"), ';')), "x");
    assert_eq!(st(&stripped_end(&cs(";x"), ';')), ";x");
    assert_eq!(st(&stripped_both(&cs("::OB1::"), ':')), "OB1");
    assert_eq!(st(&stripped_both(&cs(":::"), ':')), "");
}

#[test]
fn words_are_the_runs_between_white_space() {
    let w = words_of(&cs("  LD   5\tX "));
    assert_eq!(w.len(), 3);
    assert_eq!(st(&w[0]), "LD");
    assert_eq!(st(&w[1]), "5");
    assert_eq!(st(&w[2]), "X");
    assert_eq!(words_of(&cs("   ")).len(), 0);
}

#[test]
fn lines_split_at_line_feeds() {
    let l = lines_of(&cs("a\r\nb\n\nc"));
    assert_eq!(l.len(), 4);
    assert_eq!(st(&l[0]), "a");
    assert_eq!(st(&l[1]), "b");
    assert_eq!(st(&l[2]), "");
    assert_eq!(st(&l[3]), "c");
    assert_eq!(lines_of(&cs("")).len(), 0);
    assert_eq!(lines_of(&cs("a\n")).len(), 1);
    let m = lines_of(&cs("\n"));
    assert_eq!(m.len(), 1);
    assert_eq!(st(&m[0]), "");
    let n = lines_of(&cs("x\r"));
    assert_eq!(n.len(), 1);
    assert_eq!(st(&n[0]), "x\r");
    let o = lines_of(&cs("\r\n"));
    assert_eq!(o.len(), 1);
    assert_eq!(st(&o[0]), "");
}

#[test]
fn lines_agree_with_the_standard_library() {
    for text in ["", "a", "a\n", "a\nb", "a\r\nb\r\n", "\n\n", "a\rb\n", "x\r", "\r\n\r\n", "a\n\rb"] {
        let ours: Vec<String> = lines_of(&cs(text)).iter().map(st).collect();
        let theirs: Vec<String> = text.lines().map(|l| l.to_string()).collect();
        assert_eq!(ours, theirs);
    }
}

#[test]
fn words_agree_with_the_standard_library() {
    for text in ["", " a  b ", "a\tb\nc", "\u{a0}a\u{2003}b", "IF x > 1 THEN"] {
        let ours: Vec<String> = words_of(&cs(text)).iter().map(st).collect();
        let theirs: Vec<String> = text.split_whitespace().map(|l| l.to_string()).collect();
        assert_eq!(ours, theirs);
        assert_eq!(st(&trimmed(&cs(text))), text.trim());
    }
}

#[test]
fn numbers_parse_as_signed_decimals() {
    assert_eq!(parse_number(&cs("0")), Some(0));
    assert_eq!(parse_number(&cs("42")), Some(42));
    assert_eq!(parse_number(&cs("-42")), Some(-42));
    assert_eq!(parse_number(&cs("+7")), Some(7));
    assert_eq!(parse_number(&cs("007")), Some(7));
    assert_eq!(parse_number(&cs("")), None);
    assert_eq!(parse_number(&cs("-")), None);
    assert_eq!(parse_number(&cs("+")), None);
    assert_eq!(parse_number(&cs("1 ")), None);
    assert_eq!(parse_number(&cs("1x")), None);
    assert_eq!(parse_number(&cs("--1")), None);
    assert_eq!(parse_number(&cs("9223372036854775807")), Some(i64::MAX));
    assert_eq!(parse_number(&cs("9223372036854775808")), None);
    assert_eq!(parse_number(&cs("-9223372036854775808")), Some(i64::MIN));
    assert_eq!(parse_number(&cs("-9223372036854775809")), None);
    assert_eq!(parse_number(&cs("99999999999999999999999999")), None);
}

#[test]
fn numbers_parse_as_the_standard_library_does() {
    for text in ["0", "-0", "+0", "12", "-12", "1_0", "", " 1", "9223372036854775807", "9223372036854775808", "-9223372036854775808", "٣"] {
        assert_eq!(parse_number(&cs(text)), text.parse::<i64>().ok());
    }
}

#[test]
fn digits_are_recognised() {
    assert!(all_digits_in(&cs("0123456789")));
    assert!(all_digits_in(&cs("")));
    assert!(!all_digits_in(&cs("12a")));
    assert!(!all_digits_in(&cs("-1")));
}

#[test]
fn numbers_render_in_decimal() {
    let mut out = cs("n=");
    push_i64(&mut out, -120);
    assert_eq!(st(&out), "n=-120");
    let mut out = Vec::new();
    push_i64(&mut out, i64::MIN);
    assert_eq!(st(&out), "-9223372036854775808");
    let mut out = Vec::new();
    push_i64(&mut out, i64::MAX);
    assert_eq!(st(&out), "9223372036854775807");
    let mut out = Vec::new();
    push_i64(&mut out, 0);
    assert_eq!(st(&out), "0");
    let mut out = Vec::new();
    push_usize(&mut out, 501);
    assert_eq!(st(&out), "501");
}
