use racer::pos::{BytePos, ByteRange};
use racer::symbols::{SearchType, Visibility};
use racer::testutils::{rejustify, slice};
use racer::text::{
    bytes_eq, find, find_byte, find_byte_from, find_from, find_ident_end, find_name_end,
    is_alphanumeric, is_ident_char, is_pattern_char, is_search_expr_char, is_space,
    is_whitespace_byte, matches_at, skip_whitespace_from, starts_with, strip_visibility,
    strip_word, strip_words, symbol_matches, trim_bangs, trim_end_in, trim_start_in, txt_matches,
};

#[test]
fn byte_classes() {
    for b in [b' ', b'\t', b'\n', b'\r'] {
        assert!(is_whitespace_byte(b));
        assert!(is_space(b));
    }
    assert!(!is_whitespace_byte(0x0b));
    assert!(is_space(0x0b));
    assert!(is_space(0x0c));
    assert!(!is_space(b'a'));
    for b in [b'a', b'z', b'A', b'Z', b'0', b'9', 0x80, 0xff] {
        assert!(is_alphanumeric(b));
        assert!(is_ident_char(b));
        assert!(is_pattern_char(b));
        assert!(is_search_expr_char(b));
    }
    for b in [b'@', b'[', b'`', b'{', b'/', b';', 0x7f] {
        assert!(!is_alphanumeric(b));
        assert!(!is_ident_char(b));
        assert!(!is_pattern_char(b));
        assert!(!is_search_expr_char(b));
    }
    assert!(is_ident_char(b'_') && is_ident_char(b'!'));
    assert!(!is_ident_char(b':') && !is_ident_char(b'.') && !is_ident_char(b' '));
    assert!(is_pattern_char(b'_') && is_pattern_char(b':') && is_pattern_char(b'.'));
    assert!(is_pattern_char(b' ') && !is_pattern_char(b'!') && !is_pattern_char(b'('));
    assert!(is_search_expr_char(b'_') && is_search_expr_char(b':') && is_search_expr_char(b'.'));
    assert!(!is_search_expr_char(b' ') && !is_search_expr_char(b'!'));
}

#[test]
fn a_multi_byte_character_is_one_identifier() {
    let s = "let größe = 1";
    assert_eq!(find_ident_end(s.as_bytes(), BytePos(4)), BytePos(4 + "größe".len()));
}

#[test]
fn matches_at_compares_at_an_offset() {
    let hay = "hello world".as_bytes();
    assert!(matches_at(hay, "world".as_bytes(), 6));
    assert!(!matches_at(hay, "world".as_bytes(), 5));
    assert!(!matches_at(hay, "world".as_bytes(), 7));
    assert!(matches_at(hay, "".as_bytes(), 11));
    assert!(!matches_at(hay, "".as_bytes(), 12));
    assert!(starts_with(hay, "hell".as_bytes()));
    assert!(starts_with(hay, "".as_bytes()));
    assert!(!starts_with(hay, "world".as_bytes()));
    assert!(!starts_with("he".as_bytes(), "hell".as_bytes()));
    assert!(bytes_eq("ab".as_bytes(), "ab".as_bytes()));
    assert!(!bytes_eq("ab".as_bytes(), "abc".as_bytes()));
    assert!(!bytes_eq("ab".as_bytes(), "ac".as_bytes()));
}

#[test]
fn find_gives_the_first_offset() {
    let hay = "abcabc".as_bytes();
    assert_eq!(find(hay, "bc".as_bytes()), Some(1));
    assert_eq!(find_from(hay, "bc".as_bytes(), 2), Some(4));
    assert_eq!(find_from(hay, "bc".as_bytes(), 5), None);
    assert_eq!(find_from(hay, "bc".as_bytes(), 9), None);
    assert_eq!(find(hay, "".as_bytes()), Some(0));
    assert_eq!(find_from(hay, "".as_bytes(), 6), Some(6));
    assert_eq!(find(hay, "abcabcd".as_bytes()), None);
    assert_eq!(find_byte(hay, b'c'), Some(2));
    assert_eq!(find_byte_from(hay, b'c', 3), Some(5));
    assert_eq!(find_byte_from(hay, b'c', 6), None);
    assert_eq!(find_byte(hay, b'x'), None);
}

#[test]
fn skipping_and_trimming() {
    let s = " \t\n\r\x0bxy \x0c ".as_bytes();
    assert_eq!(skip_whitespace_from(s, 0), 4);
    assert_eq!(skip_whitespace_from(s, 5), 5);
    assert_eq!(skip_whitespace_from(s, s.len()), s.len());
    assert_eq!(trim_start_in(s, 0, s.len()), 5);
    assert_eq!(trim_start_in(s, 0, 3), 3);
    assert_eq!(trim_end_in(s, 0, s.len()), 7);
    assert_eq!(trim_end_in(s, 7, s.len()), 7);
    assert_eq!(find_name_end("NAME: u8".as_bytes(), 0), Some(4));
    assert_eq!(find_name_end("NAME u8".as_bytes(), 0), Some(4));
    assert_eq!(find_name_end("NAME".as_bytes(), 0), None);
    assert_eq!(find_ident_end("foo_bar!(x)".as_bytes(), BytePos(2)), BytePos(8));
    assert_eq!(find_ident_end("foo".as_bytes(), BytePos(3)), BytePos(3));
    assert_eq!(find_ident_end("a.b".as_bytes(), BytePos(1)), BytePos(1));
    assert_eq!(trim_bangs("say!!".as_bytes()), "say".as_bytes());
    assert_eq!(trim_bangs("say".as_bytes()), "say".as_bytes());
    assert_eq!(trim_bangs("!!".as_bytes()), "".as_bytes());
    assert_eq!(trim_bangs("a!b".as_bytes()), "a!b".as_bytes());
}

#[test]
fn txt_matches_looks_for_words() {
    let exact = SearchType::ExactMatch;
    let prefix = SearchType::StartsWith;
    assert!(txt_matches(exact, "Vec".as_bytes(), "use std::vec::Vec;".as_bytes()));
    assert!(!txt_matches(exact, "Vec".as_bytes(), "use Vectors;".as_bytes()));
    assert!(!txt_matches(exact, "Vec".as_bytes(), "use MyVec;".as_bytes()));
    assert!(!txt_matches(exact, "Vec".as_bytes(), "use XVec; VecX".as_bytes()));
    assert!(txt_matches(exact, "Vec".as_bytes(), "use XVec; Vec".as_bytes()));
    assert!(txt_matches(exact, "Vec".as_bytes(), "Vec".as_bytes()));
    assert!(txt_matches(prefix, "Vec".as_bytes(), "use Vectors;".as_bytes()));
    assert!(!txt_matches(prefix, "Vec".as_bytes(), "use MyVec;".as_bytes()));
    assert!(txt_matches(prefix, "".as_bytes(), "".as_bytes()));
    assert!(txt_matches(exact, "".as_bytes(), "anything".as_bytes()));
    assert!(!txt_matches(exact, "a".as_bytes(), "".as_bytes()));
    assert!(!txt_matches(prefix, "aaa".as_bytes(), "aa".as_bytes()));
}

#[test]
fn symbol_matches_holds_a_name_against_the_search() {
    assert!(symbol_matches(SearchType::ExactMatch, "foo".as_bytes(), "foo".as_bytes()));
    assert!(!symbol_matches(SearchType::ExactMatch, "foo".as_bytes(), "foobar".as_bytes()));
    assert!(symbol_matches(SearchType::StartsWith, "foo".as_bytes(), "foobar".as_bytes()));
    assert!(!symbol_matches(SearchType::StartsWith, "foobar".as_bytes(), "foo".as_bytes()));
    assert!(symbol_matches(SearchType::StartsWith, "".as_bytes(), "foo".as_bytes()));
}

#[test]
fn strip_word_needs_whitespace_behind_the_word() {
    assert_eq!(strip_word("const  fn".as_bytes(), "const".as_bytes()), Some(BytePos(7)));
    assert_eq!(strip_word("const ".as_bytes(), "const".as_bytes()), Some(BytePos(6)));
    assert_eq!(strip_word("constant x".as_bytes(), "const".as_bytes()), None);
    assert_eq!(strip_word("const".as_bytes(), "const".as_bytes()), None);
    assert_eq!(strip_word("fn const".as_bytes(), "const".as_bytes()), None);
    let words: [&[u8]; 2] = ["const".as_bytes(), "unsafe".as_bytes()];
    assert_eq!(strip_words("unsafe const unsafe fn f".as_bytes(), &words), BytePos(20));
    assert_eq!(strip_words("fn f".as_bytes(), &words), BytePos(0));
    assert_eq!(strip_words("const ".as_bytes(), &words), BytePos(6));
    assert_eq!(strip_words("".as_bytes(), &words), BytePos(0));
    assert_eq!(strip_words("const fn".as_bytes(), &[]), BytePos(0));
}

#[test]
fn strip_visibility_reads_the_modifier() {
    assert_eq!(
        strip_visibility("pub  fn f".as_bytes()),
        Some((BytePos(5), Visibility::Public))
    );
    assert_eq!(
        strip_visibility("pub(crate) fn f".as_bytes()),
        Some((BytePos(11), Visibility::Crate))
    );
    assert_eq!(
        strip_visibility("pub(super)fn f".as_bytes()),
        Some((BytePos(10), Visibility::Restricted))
    );
    assert_eq!(
        strip_visibility("pub(in a::b)  struct".as_bytes()),
        Some((BytePos(14), Visibility::Restricted))
    );
    assert_eq!(strip_visibility("public fn f".as_bytes()), None);
    assert_eq!(strip_visibility("pub".as_bytes()), None);
    assert_eq!(strip_visibility("pub(crate fn f".as_bytes()), None);
    assert_eq!(strip_visibility("fn pub".as_bytes()), None);
}

#[test]
fn byte_positions_and_ranges() {
    assert_eq!(BytePos::zero(), BytePos(0));
    assert_eq!(BytePos(4).increment(), BytePos(5));
    assert_eq!(BytePos(4).decrement(), BytePos(3));
    assert_eq!(BytePos(4).add(BytePos(3)), BytePos(7));
    assert_eq!(BytePos(4).sub(BytePos(3)), BytePos(1));
    assert!(BytePos(3) < BytePos(4));
    let r = ByteRange::new(BytePos(2), BytePos(5));
    assert_eq!(r.len(), 3);
    assert_eq!(ByteRange::new(BytePos(5), BytePos(2)).len(), 0);
    assert!(r.contains(BytePos(2)) && r.contains(BytePos(4)));
    assert!(!r.contains(BytePos(5)) && !r.contains(BytePos(1)));
    assert_eq!(r.shift(BytePos(10)), ByteRange::new(BytePos(12), BytePos(15)));
}

#[test]
fn rejustify_takes_the_indentation_off() {
    let src = "
    fn a() {
        b();

    }
";
    let out = rejustify(src.as_bytes());
    assert_eq!(std::str::from_utf8(&out).unwrap(), "fn a() {\n    b();\n}");
    let out = rejustify("\n    x".as_bytes());
    assert_eq!(std::str::from_utf8(&out).unwrap(), "x");
}

#[test]
fn slice_cuts_a_range() {
    assert_eq!(slice("hello world".as_bytes(), (6, 11)), "world".as_bytes());
    assert_eq!(slice("hello".as_bytes(), (2, 2)), "".as_bytes());
}
