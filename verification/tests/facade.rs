//! The operations around tokenisation: trimming and its counters, peeling,
//! character access, the escape table, the configuration values and the
//! whitespace helper.

use tokensk::util::remove_extra_whitespaces;
use tokensk::{Delimiters, ErrorKind, EscSeqMap, Flags, TStr, TStrX, TokenError};

#[test]
fn trim_counts_bytes_at_both_ends() {
    let mut t = TStr::from_str("  A string 21string ", false);
    assert_eq!(t.trimmed_prefix_cnt_raw(), -1);
    assert_eq!(t.trimmed_suffix_cnt_raw(), -1);
    assert_eq!(t.the_str(), "  A string 21string ");
    t.trim();
    assert_eq!(t.the_str(), "A string 21string");
    assert_eq!(t.trimmed_prefix_cnt_raw(), 2);
    assert_eq!(t.trimmed_suffix_cnt_raw(), 1);
}

#[test]
fn counters_trim_on_first_use() {
    let mut t = TStr::from_str(" A str 12string  ", false);
    assert_eq!(t.trimmed_prefix_cnt(), 1);
    assert_eq!(t.the_str(), "A str 12string");
    assert_eq!(t.trimmed_suffix_cnt(), 2);
    assert_eq!(t.trimmed_prefix_cnt(), 1);
}

#[test]
fn counters_of_a_hand_made_instance_are_kept() {
    let mut t = TStr {
        theStr: " x ",
        trimmedPrefixCnt: 0,
        trimmedSuffixCnt: 0,
        escSeqMap: EscSeqMap::new(),
        flags: Flags::default(),
        delims: Delimiters::default(),
    };
    assert_eq!(t.trimmed_prefix_cnt(), 0);
    assert_eq!(t.trimmed_suffix_cnt(), 0);
    assert_eq!(t.the_str(), " x ");
}

#[test]
fn trim_counts_wide_whitespace_in_bytes() {
    let mut t = TStr::from_str("\u{a0}\tx\u{3000}", true);
    assert_eq!(t.the_str(), "x");
    assert_eq!(t.trimmed_prefix_cnt(), 3);
    assert_eq!(t.trimmed_suffix_cnt(), 3);
}

#[test]
fn trim_of_whitespace_only() {
    let mut t = TStr::from_str(" \t\n ", true);
    assert_eq!(t.the_str(), "");
    assert_eq!(t.trimmed_prefix_cnt(), 4);
    assert_eq!(t.trimmed_suffix_cnt(), 0);
}

#[test]
fn set_str_starts_over() {
    let mut t = TStr::from_str("  one  ", true);
    assert_eq!(t.trimmed_prefix_cnt_raw(), 2);
    t.flags.trim_atend = false;
    t.set_str(" two", false);
    assert_eq!(t.the_str(), " two");
    assert_eq!(t.trimmed_prefix_cnt_raw(), -1);
    assert_eq!(t.trimmed_suffix_cnt_raw(), -1);
    assert!(!t.flags.trim_atend);
    t.set_str(" three ", true);
    assert_eq!(t.the_str(), "three");
    assert_eq!(t.trimmed_suffix_cnt_raw(), 1);
}

#[test]
fn clone_is_independent() {
    let a = TStr::from_str("a b", false);
    let mut b = a.clone();
    assert_eq!(b.nexttok(' ', true).unwrap(), "a");
    assert_eq!(a.the_str(), "a b");
    assert_eq!(b.the_str(), "b");
}

#[test]
fn drop_adjust_cuts_at_a_byte_offset() {
    let mut t = TStr::from_str("ॐ rest", false);
    t.drop_adjust(3);
    assert_eq!(t.the_str(), " rest");
    t.drop_adjust(1);
    assert_eq!(t.the_str(), "rest");
    t.drop_adjust(0);
    assert_eq!(t.the_str(), "rest");
    t.drop_adjust(100);
    assert_eq!(t.the_str(), "");
}

#[test]
fn first_nth_last_count_characters() {
    let tstr = TStr::from_str("0123456789 Test extracting chars ॐ", false);
    assert_eq!(tstr.char_first(), Some('0'));
    assert_eq!(tstr.char_nth(8), Some('8'));
    assert_eq!(tstr.char_last(), Some('ॐ'));
    assert_eq!(tstr.char_nth(33), Some('ॐ'));
    assert_eq!(tstr.char_nth(34), None);

    let wide = TStr::from_str("ॐxॐ", false);
    assert_eq!(wide.char_nth(1), Some('x'));
    assert_eq!(wide.char_nth(2), Some('ॐ'));

    let empty = TStr::from_str("", false);
    assert_eq!(empty.char_first(), None);
    assert_eq!(empty.char_last(), None);
    assert_eq!(empty.char_nth(0), None);
}

#[test]
fn peel_bracket_gives_prefix_and_keeps_interior() {
    let mut t = TStr::from_str("name(inner,stuff)", false);
    assert_eq!(t.peel_bracket('(').unwrap(), "name");
    assert_eq!(t.the_str(), "inner,stuff");
}

#[test]
fn peel_bracket_trims_first() {
    let mut t = TStr::from_str("  testbracket( 123, abc, \" msg inside bracket\")  ", false);
    assert_eq!(t.peel_bracket('(').unwrap(), "testbracket");
    assert_eq!(t.the_str(), " 123, abc, \" msg inside bracket\"");
    assert_eq!(t.trimmed_prefix_cnt_raw(), 2);
    assert_eq!(t.trimmed_suffix_cnt_raw(), 2);
}

#[test]
fn peel_bracket_uses_the_first_occurrence() {
    let mut t = TStr::from_str("a[b[c]]", false);
    assert_eq!(t.peel_bracket('[').unwrap(), "a");
    assert_eq!(t.the_str(), "b[c]");
    assert_eq!(t.peel_bracket('[').unwrap(), "b");
    assert_eq!(t.the_str(), "c");
}

#[test]
fn peel_bracket_at_the_very_end() {
    let mut t = TStr::from_str("name(", false);
    assert_eq!(t.peel_bracket('(').unwrap(), "name");
    assert_eq!(t.the_str(), "");
    let mut t = TStr::from_str("wide(ॐ", false);
    assert_eq!(t.peel_bracket('(').unwrap(), "wide");
    assert_eq!(t.the_str(), "");
}

#[test]
fn peel_bracket_not_found() {
    let mut t = TStr::from_str("  no bracket here ", false);
    assert_eq!(
        t.peel_bracket('('),
        Err(TokenError { kind: ErrorKind::BracketNotFound, ch: '(', pos: 0 })
    );
    assert_eq!(t.the_str(), "no bracket here");
}

#[test]
fn peel_string_strips_both_quotes() {
    let mut t = TStr::from_str("              \"A string with double quote at both end\"  ", false);
    assert_eq!(t.peel_string('"'), Ok(()));
    assert_eq!(t.the_str(), "A string with double quote at both end");
}

#[test]
fn peel_string_not_enclosed() {
    let expected = Err(TokenError { kind: ErrorKind::StringNotFullyEnclosed, ch: '"', pos: 0 });
    let mut t = TStr::from_str("   \"A string with double quote at one end  ", false);
    assert_eq!(t.peel_string('"'), expected);
    assert_eq!(t.the_str(), "\"A string with double quote at one end");
    let mut t = TStr::from_str("", false);
    assert_eq!(t.peel_string('"'), expected);
    let mut t = TStr::from_str("\"", false);
    assert_eq!(t.peel_string('"'), expected);
    assert_eq!(t.the_str(), "\"");
    let mut t = TStr::from_str("\"\"", false);
    assert_eq!(t.peel_string('"'), Ok(()));
    assert_eq!(t.the_str(), "");
}

#[test]
fn escape_table_operations() {
    let mut m = EscSeqMap::new();
    assert_eq!(m.get('n'), None);
    m.set('n', '\n');
    m.set('ॐ', 'o');
    assert_eq!(m.get('n'), Some('\n'));
    assert_eq!(m.get('ॐ'), Some('o'));
    m.set('n', 'N');
    assert_eq!(m.get('n'), Some('N'));
    let copy = m.clone();
    m.clear();
    assert_eq!(m.get('n'), None);
    assert_eq!(copy.get('n'), Some('N'));
}

#[test]
fn default_escape_sequences() {
    let m = TStrX::escseqs_default();
    assert_eq!(m.get('n'), Some('\n'));
    assert_eq!(m.get('t'), Some('\t'));
    assert_eq!(m.get('r'), Some('\r'));
    for c in ['\\', ' ', '"', '(', ')'] {
        assert_eq!(m.get(c), Some(c));
    }
    assert_eq!(m.get('v'), None);
    assert_eq!(m.get('['), None);
}

#[test]
fn shared_escape_table_can_be_changed() {
    let mut x = TStrX::new();
    x.escseqs_clear();
    let t = x.from_str("a", false);
    assert_eq!(t.escSeqMap.get('n'), None);
    x.delims.bracket = ('[', ']');
    x.delims.string = '\'';
    x.escseqs_update();
    let t = x.from_str("a", false);
    for c in ['\\', ' ', '\'', '[', ']'] {
        assert_eq!(t.escSeqMap.get(c), Some(c));
    }
    assert_eq!(t.escSeqMap.get('('), None);
    assert_eq!(t.delims.bracket, ('[', ']'));
}

#[test]
fn shared_configuration_from_parts() {
    let mut escapes = EscSeqMap::new();
    escapes.set('0', '\0');
    let x = TStrX::new_ex(Delimiters::default(), escapes, Flags::new(false, true, true, true, false, true, true));
    let mut t = x.from_str(" a\\0 ", true);
    assert_eq!(t.the_str(), "a\\0");
    assert!(!t.flags.trim);
    assert_eq!(t.nexttok(' ', true).unwrap(), "a\0");
}

#[test]
fn flags_values() {
    let d = Flags::default();
    assert!(d.trim && d.escapesequences_expand && d.blocktok_dlimuser_endreqd);
    assert!(d.stringquotes_retain && !d.string_canbe_asubpart);
    assert!(d.mainbracket_beginstandalone && d.mainbracket_beginprefixed && d.trim_atend);
    let f = Flags::new(false, false, false, false, true, false, false);
    assert!(!f.trim && !f.escapesequences_expand && !f.blocktok_dlimuser_endreqd);
    assert!(!f.stringquotes_retain && f.string_canbe_asubpart);
    assert!(!f.mainbracket_beginstandalone && !f.mainbracket_beginprefixed && f.trim_atend);
}

#[test]
fn delimiters_values_and_validity() {
    let d = Delimiters::default();
    assert_eq!((d.escseq, d.space, d.string, d.bracket, d.obracket), ('\\', ' ', '"', ('(', ')'), None));
    assert!(d.is_valid());
    let mut two = d;
    two.obracket = Some(('[', ']'));
    assert!(two.is_valid());
    let mut bad = d;
    bad.bracket = ('|', '|');
    assert!(!bad.is_valid());
    let mut bad = d;
    bad.obracket = Some(('[', '['));
    assert!(!bad.is_valid());
    let mut bad = d;
    bad.string = ' ';
    assert!(!bad.is_valid());
    let mut bad = d;
    bad.escseq = '"';
    assert!(!bad.is_valid());
    let mut bad = d;
    bad.obracket = Some(('[', '\\'));
    assert!(!bad.is_valid());
    let mut bad = d;
    bad.space = ')';
    assert!(!bad.is_valid());
}

#[test]
fn extra_whitespace_is_removed_outside_quotes() {
    assert_eq!(remove_extra_whitespaces("a   b \t\n c", '"'), "a b c");
    assert_eq!(remove_extra_whitespaces("  a  ", '"'), " a ");
    assert_eq!(remove_extra_whitespaces("a  \"b   c\"  d", '"'), "a \"b   c\" d");
    assert_eq!(remove_extra_whitespaces("\"a \\\"  b\"   c", '"'), "\"a \\\"  b\" c");
    assert_eq!(remove_extra_whitespaces("a \\  b", '"'), "a \\ b");
    assert_eq!(remove_extra_whitespaces("x\ty", '"'), "x y");
    assert_eq!(remove_extra_whitespaces("'a   b'   c  \"d\"", '\''), "'a   b' c \"d\"");
    assert_eq!(remove_extra_whitespaces("", '"'), "");
}
