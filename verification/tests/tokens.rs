//! Token extraction on concrete lines: the expected tokens, kinds, errors and
//! what is left of the text afterwards.

use tokensk::{Delimiters, ErrorKind, EscSeqMap, Flags, TStr, TStrX, TokenError, TokenType};

fn strings(v: &[&str]) -> Vec<String> {
    v.iter().map(|s| s.to_string()).collect()
}

#[test]
fn plain_words_come_back_in_order() {
    let mut t = TStr::from_str("alpha beta gamma", false);
    assert_eq!(t.tokens_vec(' ', true, false).unwrap(), strings(&["alpha", "beta", "gamma"]));
    assert_eq!(t.the_str(), "");
    assert_eq!(t.remaining_len(), 0);
}

#[test]
fn plain_words_without_trimming() {
    let mut t = TStr::from_str("alpha beta gamma", false);
    assert_eq!(t.tokens_vec(' ', false, false).unwrap(), strings(&["alpha", "beta", "gamma"]));
}

#[test]
fn single_word_is_single_token() {
    let mut t = TStr::from_str("alpha", false);
    let (tok, kind) = t.nexttok_ex(' ', true).unwrap();
    assert_eq!(tok, "alpha");
    assert_eq!(kind, TokenType::Normal);
    assert_eq!(t.len(), 0);
}

#[test]
fn quoted_block_with_quotes_retained() {
    let mut t = TStr::from_str("\"hello world\" 123", false);
    let (tok, kind) = t.nexttok_ex(' ', true).unwrap();
    assert_eq!(tok, "\"hello world\"");
    assert_eq!(kind, TokenType::String);
    assert_eq!(t.the_str(), "123");
    assert_eq!(t.nexttok(' ', true).unwrap(), "123");
    assert_eq!(t.the_str(), "");
}

#[test]
fn quoted_block_and_word_as_vector() {
    let mut t = TStr::from_str("\"hello world\" 123", false);
    assert_eq!(t.tokens_vec(' ', true, false).unwrap(), strings(&["\"hello world\"", "123"]));
}

#[test]
fn quoted_block_without_quotes() {
    let mut t = TStr::from_str("\"hello world\"", false);
    t.flags.stringquotes_retain = false;
    let (tok, kind) = t.nexttok_ex(' ', true).unwrap();
    assert_eq!(tok, "hello world");
    assert_eq!(kind, TokenType::String);
}

#[test]
fn quoted_block_holds_delimiters_and_brackets() {
    let mut t = TStr::from_str("\"a, b (c\",next", false);
    assert_eq!(t.tokens_vec(',', true, false).unwrap(), strings(&["\"a, b (c\"", "next"]));
}

#[test]
fn missing_closing_quote_takes_the_rest() {
    let mut t = TStr::from_str("\"abc", false);
    let (tok, kind) = t.nexttok_ex(' ', true).unwrap();
    assert_eq!(tok, "\"abc");
    assert_eq!(kind, TokenType::String);
    assert_eq!(t.the_str(), "");
}

#[test]
fn nested_brackets_are_one_token() {
    let mut t = TStr::from_str("f(a(b)c)", false);
    let (tok, kind) = t.nexttok_ex(' ', true).unwrap();
    assert_eq!(tok, "f(a(b)c)");
    assert_eq!(kind, TokenType::BracketPrefixed);
    assert_eq!(t.the_str(), "");
}

#[test]
fn bracket_block_holds_the_delimiter() {
    let mut t = TStr::from_str("foo(1,2,(3,4))", false);
    assert_eq!(t.tokens_vec(',', true, false).unwrap(), strings(&["foo(1,2,(3,4))"]));
}

#[test]
fn standalone_bracket_block() {
    let mut t = TStr::from_str("(a b) c", false);
    let (tok, kind) = t.nexttok_ex(' ', true).unwrap();
    assert_eq!(tok, "(a b)");
    assert_eq!(kind, TokenType::BracketStandalone);
    assert_eq!(t.the_str(), "c");
}

#[test]
fn other_family_is_content_inside_a_block() {
    let mut t = TStr::from_str("[a(b] (c[d)", false);
    t.delims.obracket = Some(('[', ']'));
    assert_eq!(t.tokens_vec(' ', true, false).unwrap(), strings(&["[a(b]", "(c[d)"]));
}

#[test]
fn open_bracket_at_the_end_closes_with_the_text() {
    let mut t = TStr::from_str("foo(", false);
    let (tok, kind) = t.nexttok_ex(' ', true).unwrap();
    assert_eq!(tok, "foo(");
    assert_eq!(kind, TokenType::BracketPrefixed);
    assert_eq!(t.the_str(), "");
}

#[test]
fn spaces_around_words_are_trimmed() {
    let mut t = TStr::from_str("  a  b ", false);
    assert_eq!(t.tokens_vec(' ', true, false).unwrap(), strings(&["a", "b"]));
}

#[test]
fn spaces_are_kept_without_trimming() {
    let mut t = TStr::from_str("  a  b", false);
    assert_eq!(t.nexttok(' ', false).unwrap(), "  a");
    assert_eq!(t.the_str(), " b");
    assert_eq!(t.nexttok(' ', false).unwrap(), " b");
    assert_eq!(t.the_str(), "");
}

#[test]
fn empty_field_between_two_delimiters() {
    let mut t = TStr::from_str("a,,b", false);
    let (tok, kind) = t.nexttok_ex(',', true).unwrap();
    assert_eq!((tok.as_str(), kind), ("a", TokenType::Normal));
    assert_eq!(t.the_str(), ",b");
    let (tok, kind) = t.nexttok_ex(',', true).unwrap();
    assert_eq!((tok.as_str(), kind), ("", TokenType::Unknown));
    assert_eq!(t.the_str(), "b");
    let (tok, kind) = t.nexttok_ex(',', true).unwrap();
    assert_eq!((tok.as_str(), kind), ("b", TokenType::Normal));
}

#[test]
fn spaces_before_another_delimiter_are_trimmed_at_the_end() {
    let mut t = TStr::from_str("yes   ,commas", false);
    assert_eq!(t.nexttok(',', true).unwrap(), "yes");
    assert_eq!(t.the_str(), "commas");
}

#[test]
fn final_trim_takes_whitespace_at_the_end_only() {
    let mut t = TStr::from_str("\tabc \t ,x", false);
    assert_eq!(t.nexttok(',', true).unwrap(), "\tabc");
    let mut t = TStr::from_str("\" hello \"", false);
    t.flags.stringquotes_retain = false;
    assert_eq!(t.nexttok(' ', true).unwrap(), " hello");
}

#[test]
fn final_trim_can_be_switched_off() {
    let mut t = TStr::from_str("yes   ,commas", false);
    t.flags.trim_atend = false;
    assert_eq!(t.nexttok(',', true).unwrap(), "yes   ");
}

#[test]
fn extraction_on_empty_text() {
    let mut t = TStr::from_str("", false);
    let (tok, kind) = t.nexttok_ex(' ', true).unwrap();
    assert_eq!((tok.as_str(), kind), ("", TokenType::Unknown));
    assert_eq!(t.tokens_vec(' ', true, false).unwrap(), Vec::<String>::new());
}

#[test]
fn escape_is_expanded() {
    let mut t = TStr::from_str("a\\tb", false);
    assert_eq!(t.nexttok(' ', true).unwrap(), "a\tb");
}

#[test]
fn escape_is_kept_when_expansion_is_off() {
    let mut t = TStr::from_str("a\\tb", false);
    t.flags.escapesequences_expand = false;
    assert_eq!(t.nexttok(' ', true).unwrap(), "a\\tb");
}

#[test]
fn escaped_delimiter_does_not_end_the_token() {
    let mut t = TStr::from_str("a\\ b c", false);
    assert_eq!(t.nexttok(' ', true).unwrap(), "a b");
    assert_eq!(t.the_str(), "c");
}

#[test]
fn escaped_delimiter_with_expansion_off() {
    let mut t = TStr::from_str("a\\ b c", false);
    t.flags.escapesequences_expand = false;
    assert_eq!(t.nexttok(' ', true).unwrap(), "a\\ b");
    assert_eq!(t.the_str(), "c");
}

#[test]
fn escaped_quote_inside_a_quoted_block() {
    let mut t = TStr::from_str("\"a\\\"b\" c", false);
    assert_eq!(t.nexttok(' ', true).unwrap(), "\"a\"b\"");
    assert_eq!(t.the_str(), "c");
}

#[test]
fn unknown_escape_sequence() {
    let mut t = TStr::from_str("a\\q", false);
    let (err, partial) = t.nexttok_ex(' ', true).unwrap_err();
    assert_eq!(err, TokenError { kind: ErrorKind::UnknownEscapeSequence, ch: 'q', pos: 2 });
    assert_eq!(partial, "a");
    assert_eq!(t.the_str(), "");
}

#[test]
fn unknown_escape_sequence_with_empty_partial_token() {
    let mut t = TStr::from_str("\"\\q", false);
    t.flags.stringquotes_retain = false;
    let (err, partial) = t.nexttok_ex(' ', true).unwrap_err();
    assert_eq!(err.kind, ErrorKind::UnknownEscapeSequence);
    assert_eq!(partial, "");
    assert_eq!(t.the_str(), "");
    assert_eq!(t.remaining_len(), 0);
}

#[test]
fn escape_where_a_token_begins() {
    let mut t = TStr::from_str("\\q", false);
    let (err, partial) = t.nexttok_ex(' ', true).unwrap_err();
    assert_eq!(err, TokenError { kind: ErrorKind::EscapeAtTokenStart, ch: '\\', pos: 0 });
    assert_eq!(partial, "");
    assert_eq!(t.the_str(), "q");
}

#[test]
fn bracket_at_start_when_not_allowed() {
    let mut t = TStr::from_str("(a) b", false);
    t.flags.mainbracket_beginstandalone = false;
    let (err, partial) = t.nexttok(' ', true).unwrap_err();
    assert_eq!(err, TokenError { kind: ErrorKind::BracketAtStartNotAllowed, ch: '(', pos: 0 });
    assert_eq!(partial, "");
    assert_eq!(t.the_str(), "a) b");
}

#[test]
fn bracket_inside_token_when_not_allowed() {
    let mut t = TStr::from_str("f(a) b", false);
    t.flags.mainbracket_beginprefixed = false;
    let (err, partial) = t.nexttok(' ', true).unwrap_err();
    assert_eq!(err, TokenError { kind: ErrorKind::BracketNotAllowedMidToken, ch: '(', pos: 1 });
    assert_eq!(partial, "f");
    assert_eq!(t.the_str(), "a) b");
}

#[test]
fn closing_bracket_where_a_token_begins() {
    let mut t = TStr::from_str(") x", false);
    let (err, partial) = t.nexttok(' ', true).unwrap_err();
    assert_eq!(err, TokenError { kind: ErrorKind::ClosingBracketAtTokenStart, ch: ')', pos: 0 });
    assert_eq!(partial, "");
    assert_eq!(t.the_str(), " x");
}

#[test]
fn closing_bracket_without_open_bracket() {
    let mut t = TStr::from_str("ab) x", false);
    let (err, partial) = t.nexttok(' ', true).unwrap_err();
    assert_eq!(
        err,
        TokenError { kind: ErrorKind::ClosingBracketWithoutOpenBracket, ch: ')', pos: 2 }
    );
    assert_eq!(partial, "ab");
    assert_eq!(t.the_str(), " x");
}

#[test]
fn block_must_be_followed_by_a_delimiter() {
    let mut t = TStr::from_str("\"a\"b c", false);
    let (err, partial) = t.nexttok(' ', true).unwrap_err();
    assert_eq!(
        err,
        TokenError { kind: ErrorKind::ExpectedTrailingDelimiterAfterBlock, ch: 'b', pos: 3 }
    );
    assert_eq!(partial, "\"a\"");
    assert_eq!(t.the_str(), " c");
}

#[test]
fn refused_bracket_at_the_end_of_the_text() {
    let mut t = TStr::from_str("foo(", false);
    t.flags.mainbracket_beginprefixed = false;
    let (err, partial) = t.nexttok(' ', true).unwrap_err();
    assert_eq!(err, TokenError { kind: ErrorKind::BracketNotAllowedMidToken, ch: '(', pos: 3 });
    assert_eq!(partial, "foo");
    assert_eq!(t.the_str(), "");

    let mut t = TStr::from_str("(", false);
    t.flags.mainbracket_beginstandalone = false;
    let (err, partial) = t.nexttok(' ', true).unwrap_err();
    assert_eq!(err, TokenError { kind: ErrorKind::BracketAtStartNotAllowed, ch: '(', pos: 0 });
    assert_eq!(partial, "");
    assert_eq!(t.the_str(), "");
}

#[test]
fn bracket_inside_quotes_inside_a_block_counts_unless_escaped() {
    let mut t = TStr::from_str("f(\"a)\" b)", false);
    let (err, partial) = t.nexttok(' ', true).unwrap_err();
    assert_eq!(
        err,
        TokenError { kind: ErrorKind::ExpectedTrailingDelimiterAfterBlock, ch: '"', pos: 5 }
    );
    assert_eq!(partial, "f(\"a)");

    let mut t = TStr::from_str("f(\"a\\)\" b) c", false);
    assert_eq!(t.nexttok(' ', true).unwrap(), "f(\"a)\" b)");
    assert_eq!(t.the_str(), "c");
}

#[test]
fn block_followed_by_space_then_delimiter() {
    let mut t = TStr::from_str("f(x)  ,y", false);
    assert_eq!(t.nexttok(',', true).unwrap(), "f(x)");
    assert_eq!(t.the_str(), "y");
}

#[test]
fn quoted_part_of_a_larger_token() {
    let mut t = TStr::from_str("\"k\":\"v w\",x", false);
    t.flags.string_canbe_asubpart = true;
    t.flags.blocktok_dlimuser_endreqd = false;
    let (tok, kind) = t.nexttok_ex(',', true).unwrap();
    assert_eq!(tok, "\"k\":\"v w\"");
    assert_eq!(kind, TokenType::String);
    assert_eq!(t.the_str(), "x");
}

#[test]
fn error_aborts_or_is_skipped() {
    let mut t = TStr::from_str("a ) b", false);
    let (err, partial) = t.tokens_vec(' ', true, false).unwrap_err();
    assert_eq!(err.kind, ErrorKind::ClosingBracketAtTokenStart);
    assert_eq!(partial, "");
    assert_eq!(t.the_str(), " b");

    let mut t = TStr::from_str("a ) b", false);
    assert_eq!(t.tokens_vec(' ', true, true).unwrap(), strings(&["a", "b"]));
    assert_eq!(t.the_str(), "");
}

#[test]
fn malformed_input_is_used_up_in_at_most_as_many_calls_as_characters() {
    let lines = [")))", "a)b)c)", "\\\\\\", "\"x\"y\"z\"w", "((((", "  ) ( ] \\q \"", "ॐ)ॐ)"];
    for line in lines {
        for dlim in [' ', ','] {
            let mut t = TStr::from_str(line, false);
            let mut calls = 0;
            while t.remaining_len() > 0 {
                let before = t.the_str().chars().count();
                let _ = t.nexttok(dlim, true);
                assert!(t.the_str().chars().count() < before);
                calls += 1;
            }
            assert!(calls <= line.chars().count());
        }
    }
}

#[test]
fn every_failed_call_consumes_through_the_offender() {
    let mut t = TStr::from_str(")))", false);
    for left in ["))", ")", ""] {
        assert!(t.nexttok(' ', true).is_err());
        assert_eq!(t.the_str(), left);
    }
}

#[test]
fn text_with_wide_characters() {
    let mut t = TStr::from_str("ॐ नमः, शिवाय", false);
    assert_eq!(t.remaining_len(), "ॐ नमः, शिवाय".len());
    assert_eq!(t.nexttok(',', true).unwrap(), "ॐ नमः");
    assert_eq!(t.the_str(), "शिवाय");
    assert_eq!(t.len(), "शिवाय".len());
    assert_eq!(t.nexttok(',', true).unwrap(), "शिवाय");
    assert_eq!(t.the_str(), "");
}

#[test]
fn error_position_counts_characters() {
    let mut t = TStr::from_str("ॐॐ) x", false);
    let (err, partial) = t.nexttok(' ', true).unwrap_err();
    assert_eq!(err.pos, 2);
    assert_eq!(partial, "ॐॐ");
    assert_eq!(t.the_str(), " x");
}

#[test]
fn split_once_gives_token_and_rest() {
    let mut t = TStr::from_str("key = some value", false);
    assert_eq!(
        t.split_once('=').unwrap(),
        ("key".to_string(), "some value".to_string())
    );
    assert_eq!(t.the_str(), "some value");
}

#[test]
fn split_once_reports_the_error() {
    let mut t = TStr::from_str(")x", false);
    let (err, partial) = t.split_once(' ').unwrap_err();
    assert_eq!(err.kind, ErrorKind::ClosingBracketAtTokenStart);
    assert_eq!(partial, "");
    assert_eq!(t.the_str(), "x");
}

#[test]
fn splitn_values() {
    let mut t = TStr::from_str("one two three four five", false);
    assert_eq!(t.splitn(3, ' ').unwrap(), strings(&["one", "two", "three four five"]));
    assert_eq!(t.the_str(), "three four five");

    let mut t = TStr::from_str("oneXXtwoXthree four five", false);
    assert_eq!(t.splitn(3, 'X').unwrap(), strings(&["one", "", "twoXthree four five"]));

    let mut t = TStr::from_str("oneXXtwoXthree four five", false);
    assert_eq!(t.splitn(1, 'X').unwrap(), strings(&["oneXXtwoXthree four five"]));

    let mut t = TStr::from_str("one two three four five", false);
    assert_eq!(t.splitn(3, 'X').unwrap(), strings(&["one two three four five"]));
    assert_eq!(t.the_str(), "");

    let mut t = TStr::from_str("a b", false);
    assert_eq!(t.splitn(0, ' ').unwrap(), strings(&["a b"]));

    let mut t = TStr::from_str("", false);
    assert_eq!(t.splitn(0, ' ').unwrap(), Vec::<String>::new());

    let mut t = TStr::from_str("", false);
    assert_eq!(t.splitn(2, ' ').unwrap(), strings(&[""]));
}

#[test]
fn splitn_stops_at_an_error() {
    let mut t = TStr::from_str("a )b c", false);
    let (err, _) = t.splitn(4, ' ').unwrap_err();
    assert_eq!(err.kind, ErrorKind::ClosingBracketAtTokenStart);
    assert_eq!(t.the_str(), "b c");
}

#[test]
fn shared_configuration_is_copied() {
    let mut tstrx = TStrX::new();
    tstrx.flags.trim = false;
    tstrx.flags.mainbracket_beginprefixed = false;
    tstrx.escseqs_set('v', 'W');
    tstrx.delims.bracket = ('[', ']');

    let mut tstr = tstrx.from_str("    test,   me  ", true);
    assert_eq!(tstr.the_str(), "test,   me");
    assert_eq!(tstr.tokens_vec(',', true, false).unwrap(), strings(&["test", "me"]));

    let mut tstr =
        tstrx.from_str("    test,   [me, hello world], [[save nature], [save earth]]  ", false);
    assert_eq!(
        tstr.tokens_vec(',', false, false).unwrap(),
        strings(&["    test", "   [me, hello world]", " [[save nature], [save earth]]  "])
    );

    let mut tstr = tstrx.from_str("a\\vb f[x]", false);
    assert_eq!(tstr.nexttok(' ', true).unwrap(), "aWb");
    let (err, _) = tstr.nexttok(' ', true).unwrap_err();
    assert_eq!(err.kind, ErrorKind::BracketNotAllowedMidToken);
}

#[test]
fn escape_sequences_of_the_walk_through() {
    let mut tstrx = TStrX::new();
    let sstr = r"test \v escseqs \\v also \t and \\t. Ok done";
    let mut tstr = tstrx.from_str(sstr, false);
    let (err, partial) = tstr.tokens_vec(';', true, false).unwrap_err();
    assert_eq!(err, TokenError { kind: ErrorKind::UnknownEscapeSequence, ch: 'v', pos: 6 });
    assert_eq!(partial, "test ");

    tstrx.escseqs_set('v', 'W');
    tstrx.escseqs_set('t', '\n');
    let mut tstr = tstrx.from_str(sstr, true);
    assert_eq!(
        tstr.tokens_vec(';', true, false).unwrap(),
        strings(&["test W escseqs \\v also \n and \\t. Ok done"])
    );
}

#[test]
fn quoted_sub_parts_of_the_walk_through() {
    let sstr1 = r#""skey1":"svalue2","skey2":"svalue2", what else, "nothing new" another, "again again", the end"#;
    let mut tstrx = TStrX::new();
    tstrx.flags.string_canbe_asubpart = true;
    tstrx.flags.blocktok_dlimuser_endreqd = false;
    let mut tstr = tstrx.from_str(sstr1, true);
    assert_eq!(
        tstr.tokens_vec(',', true, false).unwrap(),
        strings(&[
            "\"skey1\":\"svalue2\"",
            "\"skey2\":\"svalue2\"",
            "what else",
            "\"nothing new\" another",
            "\"again again\"",
            "the end",
        ])
    );
}

/// Without the demand for a delimiter behind a block, the block ends its
/// token at once, and the delimiter that follows opens an empty field.
#[test]
fn two_bracket_families_of_the_walk_through() {
    let sstr1 = r#""skey1":"svalue2", ["nothing new" another], {"again again", the end}, "skey3":[{what now}, {again}]  , no more"#;
    let mut tstr = TStr::from_str(sstr1, true);
    tstr.delims.bracket = ('{', '}');
    tstr.delims.obracket = Some(('[', ']'));
    tstr.flags.string_canbe_asubpart = true;
    tstr.flags.blocktok_dlimuser_endreqd = false;
    assert_eq!(
        tstr.tokens_vec(',', true, false).unwrap(),
        strings(&[
            "\"skey1\":\"svalue2\"",
            "[\"nothing new\" another]",
            "",
            "{\"again again\", the end}",
            "",
            "\"skey3\":[{what now}, {again}]",
            "",
            "no more",
        ])
    );
}

#[test]
fn from_str_ex_takes_the_configuration() {
    let mut escapes = EscSeqMap::new();
    escapes.set('q', '?');
    let delims = Delimiters {
        escseq: '^',
        space: '_',
        string: '\'',
        bracket: ('<', '>'),
        obracket: None,
    };
    let flags = Flags::new(true, true, true, false, false, true, true);
    let mut t = TStr::from_str_ex("__'a_b'_x<y_z>_k^qm__", true, delims, escapes, flags);
    assert_eq!(t.the_str(), "__'a_b'_x<y_z>_k^qm__");
    assert_eq!(
        t.tokens_vec('_', true, false).unwrap(),
        strings(&["a_b", "x<y_z>", "k?m"])
    );
}
