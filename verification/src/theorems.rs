//! General facts about tokenisation, proved from the definitions in `scan`
//! and `nexttoken`.

use crate::config::{Delimiters, TokenType};
use crate::error::{ErrorKind, TokenError};
use crate::nexttoken::{after_block, Phase, ScanConfig, TokState};
use crate::scan::{
    all_tokens,
    finished,
    lemma_step_unfolded,
    next_token,
    scan_from,
    step,
    Scanned,
    Tokens,
};
use crate::text::{char_is_whitespace, trim_end};
use vstd::prelude::*;

verus! {

/// `c` has no structural meaning in a scan: it is none of the configured
/// characters and not the delimiter of the scan.
pub open spec fn is_plain_char(d: Delimiters, cfg: ScanConfig, c: char) -> bool {
    !d.is_special(c) && c != cfg.cend
}

/// A plain word: at least one character, none with a structural meaning, and
/// no whitespace at the end.
pub open spec fn is_plain_word(d: Delimiters, cfg: ScanConfig, w: Seq<char>) -> bool {
    &&& w.len() > 0
    &&& forall|i: int| 0 <= i < w.len() ==> is_plain_char(d, cfg, #[trigger] w[i])
    &&& !char_is_whitespace(w.last())
}

/// The words with one `sep` between each two neighbours.
pub open spec fn join(words: Seq<Seq<char>>, sep: char) -> Seq<char>
    decreases words.len(),
{
    if words.len() == 0 {
        Seq::empty()
    } else if words.len() == 1 {
        words[0]
    } else {
        words[0] + seq![sep] + join(words.drop_first(), sep)
    }
}

/// Text that does not end in whitespace has nothing to trim at its end.
pub proof fn lemma_trim_end_nothing(w: Seq<char>)
    requires
        w.len() > 0 ==> !char_is_whitespace(w.last()),
    ensures
        trim_end(w) == w,
{
    assert(trim_end(w) =~= w);
}

/// A plain character inside a plain token is appended to it.
pub proof fn lemma_step_plain(d: Delimiters, cfg: ScanConfig, st: TokState, ch: char)
    requires
        is_plain_char(d, cfg, ch),
        !st.escape,
    ensures
        st.phase is BtwNormal ==> step(d, cfg, st, ch) == st.push(ch).next(),
        st.phase is Begin ==> step(d, cfg, st, ch) == st.typed(TokenType::Normal).goto(
            Phase::BtwNormal,
        ).push(ch).next(),
        st.phase is EndCleanup ==> step(d, cfg, st, ch) == st.done(),
{
    lemma_step_unfolded(d, cfg, st, ch);
}

/// The scan walks through a run of plain characters inside a plain token and
/// collects them.
pub proof fn lemma_scan_plain_run(
    d: Delimiters,
    cfg: ScanConfig,
    text: Seq<char>,
    i: int,
    j: int,
    st: TokState,
)
    requires
        0 <= i <= j <= text.len(),
        forall|k: int| i <= k < j ==> is_plain_char(d, cfg, #[trigger] text[k]),
        st.phase is BtwNormal,
        !st.escape,
    ensures
        scan_from(d, cfg, text, i, st) == scan_from(
            d,
            cfg,
            text,
            j,
            TokState { tok: st.tok + text.subrange(i, j), ..st },
        ),
    decreases j - i,
{
    if i < j {
        lemma_step_plain(d, cfg, st, text[i]);
        let st1 = st.push(text[i]);
        lemma_scan_plain_run(d, cfg, text, i + 1, j, st1);
        assert(st1.tok + text.subrange(i + 1, j) =~= st.tok + text.subrange(i, j));
    } else {
        assert(st.tok + text.subrange(i, j) =~= st.tok);
    }
}

/// A plain word at the start of a text is its first token. It ends at the
/// end of the text, or at a single space that is followed by the next word,
/// and that space goes with it.
pub proof fn lemma_first_word(d: Delimiters, cfg: ScanConfig, w: Seq<char>, tail: Seq<char>)
    requires
        d.valid(),
        cfg.cend == d.space,
        is_plain_word(d, cfg, w),
        tail.len() == 0 || (tail.len() >= 2 && tail[0] == d.space && is_plain_char(
            d,
            cfg,
            tail[1],
        )),
    ensures
        next_token(d, cfg, w + tail) == (Scanned::Token {
            tok: w,
            kind: TokenType::Normal,
            rest: if tail.len() == 0 {
                w.len() as int
            } else {
                w.len() as int + 1
            },
        }),
{
    let text = w + tail;
    let n = w.len() as int;
    let st0 = TokState::initial();
    assert(text[0] == w[0]);
    lemma_step_plain(d, cfg, st0, text[0]);
    let st1 = st0.typed(TokenType::Normal).goto(Phase::BtwNormal).push(text[0]);
    assert(scan_from(d, cfg, text, 0, st0) == scan_from(d, cfg, text, 1, st1));
    assert forall|k: int| 1 <= k < n implies is_plain_char(d, cfg, #[trigger] text[k]) by {
        assert(text[k] == w[k]);
    }
    lemma_scan_plain_run(d, cfg, text, 1, n, st1);
    let st2 = TokState { tok: st1.tok + text.subrange(1, n), ..st1 };
    assert(st2.tok =~= w);
    lemma_trim_end_nothing(w);
    if tail.len() > 0 {
        assert(text[n] == tail[0]);
        assert(text[n + 1] == tail[1]);
        lemma_step_unfolded(d, cfg, st2, text[n]);
        let st3 = st2.goto(Phase::EndCleanup);
        assert(step(d, cfg, st2, text[n]) == st3.next_marked());
        lemma_step_plain(d, cfg, st3, text[n + 1]);
        assert(scan_from(d, cfg, text, n, st2) == scan_from(d, cfg, text, n + 1, st3));
    }
}

/// A line made of plain words with single spaces between them is cut into
/// exactly those words, in their order, with nothing lost and nothing left
/// over. This holds with and without trimming, and whether or not errors
/// would be skipped, as there are none.
pub proof fn theorem_plain_words(
    d: Delimiters,
    cfg: ScanConfig,
    words: Seq<Seq<char>>,
    keep_going: bool,
)
    requires
        d.valid(),
        cfg.cend == d.space,
        forall|i: int| 0 <= i < words.len() ==> is_plain_word(d, cfg, #[trigger] words[i]),
    ensures
        all_tokens(d, cfg, join(words, d.space), keep_going) == (Tokens {
            result: Ok(words),
            rest: Seq::empty(),
        }),
    decreases words.len(),
{
    let text = join(words, d.space);
    if words.len() == 0 {
        assert(words =~= Seq::<Seq<char>>::empty());
    } else {
        let w = words[0];
        let others = words.drop_first();
        assert forall|i: int| 0 <= i < others.len() implies is_plain_word(
            d,
            cfg,
            #[trigger] others[i],
        ) by {
            assert(others[i] == words[i + 1]);
        }
        theorem_plain_words(d, cfg, others, keep_going);
        let tail = if words.len() == 1 {
            Seq::<char>::empty()
        } else {
            seq![d.space] + join(others, d.space)
        };
        assert(text =~= w + tail);
        if words.len() > 1 {
            let next = others[0];
            assert(is_plain_word(d, cfg, next));
            assert(join(others, d.space)[0] == next[0]);
            assert(tail[1] == next[0]);
        }
        lemma_first_word(d, cfg, w, tail);
        let rest = text.skip(next_token(d, cfg, text).consumed());
        assert(rest =~= join(others, d.space));
        assert(seq![w] + others =~= words);
    }
}

/// Inside a quoted block every character but the quote and the escape
/// marker is content, whatever it means elsewhere.
pub proof fn lemma_scan_quoted_run(
    d: Delimiters,
    cfg: ScanConfig,
    text: Seq<char>,
    i: int,
    j: int,
    st: TokState,
)
    requires
        0 <= i <= j <= text.len(),
        forall|k: int| i <= k < j ==> #[trigger] text[k] != d.string && text[k] != d.escseq,
        st.phase is BtwString,
        !st.escape,
    ensures
        scan_from(d, cfg, text, i, st) == scan_from(
            d,
            cfg,
            text,
            j,
            TokState { tok: st.tok + text.subrange(i, j), ..st },
        ),
    decreases j - i,
{
    if i < j {
        lemma_step_unfolded(d, cfg, st, text[i]);
        let st1 = st.push(text[i]);
        assert(step(d, cfg, st, text[i]) == st1.next());
        lemma_scan_quoted_run(d, cfg, text, i + 1, j, st1);
        assert(st1.tok + text.subrange(i + 1, j) =~= st.tok + text.subrange(i, j));
    } else {
        assert(st.tok + text.subrange(i, j) =~= st.tok);
    }
}

/// `body` between two quote characters.
pub open spec fn quoted(d: Delimiters, body: Seq<char>) -> Seq<char> {
    seq![d.string] + body + seq![d.string]
}

/// A text that is one quoted block is one token of kind `String`, whatever
/// spaces, delimiters and brackets stand between the quotes. The token holds
/// the quotes if and only if the flags say that quotes are retained.
pub proof fn theorem_quoted_block(d: Delimiters, cfg: ScanConfig, body: Seq<char>)
    requires
        d.valid(),
        cfg.cend != d.string,
        forall|i: int|
            0 <= i < body.len() ==> #[trigger] body[i] != d.string && body[i] != d.escseq,
    ensures
        next_token(d, cfg, quoted(d, body)) == (Scanned::Token {
            tok: finished(
                cfg.flags,
                if cfg.flags.stringquotes_retain {
                    quoted(d, body)
                } else {
                    body
                },
            ),
            kind: TokenType::String,
            rest: body.len() as int + 2,
        }),
        cfg.flags.stringquotes_retain && !char_is_whitespace(d.string) ==> next_token(
            d,
            cfg,
            quoted(d, body),
        ) == (Scanned::Token {
            tok: quoted(d, body),
            kind: TokenType::String,
            rest: body.len() as int + 2,
        }),
{
    let text = quoted(d, body);
    let n = body.len() as int;
    let retain = cfg.flags.stringquotes_retain;
    let st0 = TokState::initial();
    assert(text[0] == d.string);
    assert(text[n + 1] == d.string);
    lemma_step_unfolded(d, cfg, st0, text[0]);
    let st1 = st0.typed(TokenType::String).goto(Phase::BtwString).push_if(retain, d.string);
    assert(step(d, cfg, st0, text[0]) == st1.next());
    assert(scan_from(d, cfg, text, 0, st0) == scan_from(d, cfg, text, 1, st1));
    assert forall|k: int| 1 <= k < n + 1 implies #[trigger] text[k] != d.string && text[k]
        != d.escseq by {
        assert(text[k] == body[k - 1]);
    }
    lemma_scan_quoted_run(d, cfg, text, 1, n + 1, st1);
    let st2 = TokState { tok: st1.tok + text.subrange(1, n + 1), ..st1 };
    assert(text.subrange(1, n + 1) =~= body);
    lemma_step_unfolded(d, cfg, st2, text[n + 1]);
    let st3 = st2.goto(after_block(cfg.flags, true)).push_if(retain, d.string);
    assert(step(d, cfg, st2, text[n + 1]) == st3.next_marked());
    assert(scan_from(d, cfg, text, n + 1, st2) == scan_from(d, cfg, text, n + 2, st3));
    if retain {
        assert(st3.tok =~= text);
        if !char_is_whitespace(d.string) {
            lemma_trim_end_nothing(text);
        }
    } else {
        assert(st3.tok =~= body);
    }
}

/// `phase` is one of the phases in which token content is being collected.
pub open spec fn inside_token(phase: Phase) -> bool {
    phase is BtwNormal || phase is BtwString || phase is BtwBracket
}

/// Inside a token, the character after an escape marker never acts as a
/// structural character. With expansion on, the pair is replaced by what the
/// escape table gives for the character, and a character that the table
/// does not have is an error that leaves the token as it was. With expansion
/// off, marker and character are both kept as they are.
pub proof fn theorem_escape_pair(d: Delimiters, cfg: ScanConfig, st: TokState, c: char)
    requires
        inside_token(st.phase),
        !st.escape,
    ensures
        ({
            let first = step(d, cfg, st, d.escseq);
            let second = step(d, cfg, first.state, c);
            if !cfg.flags.escapesequences_expand {
                first.flow is Ok && second == st.push(d.escseq).push(c).next()
            } else if cfg.escapes.contains_key(c) {
                first.flow is Ok && second == st.push(cfg.escapes[c]).next()
            } else {
                first.flow is Ok && second == st.fail(ErrorKind::UnknownEscapeSequence)
            }
        }),
{
    lemma_step_unfolded(d, cfg, st, d.escseq);
    let first = step(d, cfg, st, d.escseq);
    lemma_step_unfolded(d, cfg, first.state, c);
}

/// Where a token would begin, an escape marker is an error.
pub proof fn theorem_escape_at_start(d: Delimiters, cfg: ScanConfig, st: TokState)
    requires
        st.phase is Begin,
        !st.escape,
    ensures
        step(d, cfg, st, d.escseq) == st.fail(ErrorKind::EscapeAtTokenStart),
{
    lemma_step_unfolded(d, cfg, st, d.escseq);
}

/// How many brackets are open after `s`: the number of `open` characters in
/// it less the number of `close` characters.
pub open spec fn bracket_depth(s: Seq<char>, open: char, close: char) -> int
    decreases s.len(),
{
    if s.len() == 0 {
        0
    } else {
        bracket_depth(s.drop_last(), open, close) + if s.last() == open {
            1int
        } else if s.last() == close {
            -1int
        } else {
            0int
        }
    }
}

/// `s` is one bracketed block: it begins with `open`, and its brackets
/// balance at its last character and nowhere before.
pub open spec fn is_balanced_block(s: Seq<char>, open: char, close: char) -> bool {
    &&& s.len() >= 2
    &&& s[0] == open
    &&& bracket_depth(s, open, close) == 0
    &&& forall|k: int| 0 < k < s.len() ==> bracket_depth(#[trigger] s.take(k), open, close) > 0
}

/// The bracket family `open`, `close` is one that a scan under `d` follows
/// through a block. A family is known by its begin character, and the first
/// family is asked first. So this is the first family, if the second does
/// not begin with the same character; or the second, if none of its
/// characters belongs to the first as well.
pub open spec fn is_family(d: Delimiters, open: char, close: char) -> bool {
    ||| (d.bracket == (open, close) && (d.obracket matches Some(o) ==> o.0 != open))
    ||| (d.obracket == Some((open, close)) && open != d.bracket.0 && open != d.bracket.1 && close
        != d.bracket.0 && close != d.bracket.1)
}

/// No more brackets can be open than there are characters.
pub proof fn lemma_bracket_depth_bound(s: Seq<char>, open: char, close: char)
    ensures
        bracket_depth(s, open, close) <= s.len(),
    decreases s.len(),
{
    if s.len() > 0 {
        lemma_bracket_depth_bound(s.drop_last(), open, close);
    }
}

/// Inside a bracketed block the scan counts the brackets of the family that
/// opened it, takes everything as content, and leaves the block at the
/// bracket that closes the first one.
pub proof fn lemma_scan_bracket_run(
    d: Delimiters,
    cfg: ScanConfig,
    text: Seq<char>,
    base: int,
    block: Seq<char>,
    open: char,
    close: char,
    k: int,
    st: TokState,
)
    requires
        d.valid(),
        is_family(d, open, close),
        cfg.cend != open,
        cfg.cend != close,
        is_balanced_block(block, open, close),
        forall|i: int| 0 <= i < block.len() ==> #[trigger] block[i] != d.escseq,
        block.len() <= usize::MAX,
        0 <= base,
        base + block.len() <= text.len(),
        text.subrange(base, base + block.len()) == block,
        1 <= k < block.len(),
        st.phase matches Phase::BtwBracket(family, cnt) && family == open && cnt == bracket_depth(
            block.take(k),
            open,
            close,
        ),
        !st.escape,
    ensures
        scan_from(d, cfg, text, base + k, st) == scan_from(
            d,
            cfg,
            text,
            base + block.len(),
            TokState {
                phase: after_block(cfg.flags, false),
                tok: st.tok + block.skip(k),
                ..st
            },
        ),
    decreases block.len() - k,
{
    let c = block[k];
    assert(text[base + k] == text.subrange(base, base + block.len())[k]);
    let dk = bracket_depth(block.take(k), open, close);
    lemma_bracket_depth_bound(block.take(k), open, close);
    assert(block.take(k + 1).drop_last() == block.take(k));
    assert(block.take(k + 1).last() == c);
    let dk1 = bracket_depth(block.take(k + 1), open, close);
    assert(dk1 == dk + if c == open {
        1int
    } else if c == close {
        -1int
    } else {
        0int
    });
    assert(0 < dk <= k);
    lemma_step_unfolded(d, cfg, st, c);
    if k + 1 < block.len() {
        assert(dk1 > 0);
        let st1 = st.goto(Phase::BtwBracket(open, dk1 as usize)).push(c);
        assert(step(d, cfg, st, c) == st1.next());
        lemma_scan_bracket_run(d, cfg, text, base, block, open, close, k + 1, st1);
        assert(st1.tok + block.skip(k + 1) =~= st.tok + block.skip(k));
    } else {
        assert(block.take(k + 1) == block);
        let st1 = st.goto(after_block(cfg.flags, false)).push(c);
        assert(step(d, cfg, st, c) == st1.next_marked());
        assert(st.tok + block.skip(k) =~= st1.tok);
    }
}

/// Brackets of one family are matched by depth. A text that is one bracketed
/// block, alone or behind a plain prefix, is one token: it ends at the
/// bracket that closes the first one, however many brackets open and close
/// in between and whatever delimiters, spaces and quotes stand inside.
pub proof fn theorem_bracket_block(
    d: Delimiters,
    cfg: ScanConfig,
    prefix: Seq<char>,
    block: Seq<char>,
    open: char,
    close: char,
)
    requires
        d.valid(),
        is_family(d, open, close),
        cfg.cend != open,
        cfg.cend != close,
        is_balanced_block(block, open, close),
        forall|i: int| 0 <= i < block.len() ==> #[trigger] block[i] != d.escseq,
        block.len() <= usize::MAX,
        forall|i: int| 0 <= i < prefix.len() ==> is_plain_char(d, cfg, #[trigger] prefix[i]),
        prefix.len() == 0 ==> cfg.flags.mainbracket_beginstandalone,
        prefix.len() > 0 ==> cfg.flags.mainbracket_beginprefixed,
    ensures
        next_token(d, cfg, prefix + block) == (Scanned::Token {
            tok: finished(cfg.flags, prefix + block),
            kind: if prefix.len() == 0 {
                TokenType::BracketStandalone
            } else {
                TokenType::BracketPrefixed
            },
            rest: (prefix + block).len() as int,
        }),
{
    let text = prefix + block;
    let p = prefix.len() as int;
    let st0 = TokState::initial();
    assert(text.subrange(p, p + block.len()) =~= block);
    assert(text[p] == block[0]);
    // The plain prefix, if there is one.
    let st1 = if p == 0 {
        st0
    } else {
        TokState { phase: Phase::BtwNormal, tok: prefix, toktype: TokenType::Normal, ..st0 }
    };
    if p > 0 {
        assert(text[0] == prefix[0]);
        lemma_step_plain(d, cfg, st0, text[0]);
        let first = st0.typed(TokenType::Normal).goto(Phase::BtwNormal).push(text[0]);
        assert(scan_from(d, cfg, text, 0, st0) == scan_from(d, cfg, text, 1, first));
        assert forall|k: int| 1 <= k < p implies is_plain_char(d, cfg, #[trigger] text[k]) by {
            assert(text[k] == prefix[k]);
        }
        lemma_scan_plain_run(d, cfg, text, 1, p, first);
        assert(first.tok + text.subrange(1, p) =~= prefix);
    }
    assert(scan_from(d, cfg, text, 0, st0) == scan_from(d, cfg, text, p, st1));
    // The opening bracket.
    lemma_step_unfolded(d, cfg, st1, open);
    let kind = if p == 0 {
        TokenType::BracketStandalone
    } else {
        TokenType::BracketPrefixed
    };
    let st2 = st1.typed(kind).goto(Phase::BtwBracket(open, 1)).push(open);
    assert(step(d, cfg, st1, open) == st2.next());
    assert(block.take(1).drop_last() == Seq::<char>::empty());
    assert(block.take(1).last() == open);
    assert(bracket_depth(block.take(1), open, close) == 1) by {
        reveal_with_fuel(bracket_depth, 2);
    }
    // The rest of the block.
    lemma_scan_bracket_run(d, cfg, text, p, block, open, close, 1, st2);
    assert(st2.tok + block.skip(1) =~= text);
}

/// An opening bracket at the end of a text that may not open a block where
/// it stands is an error: at the start of the text when standalone blocks
/// are off, and behind a plain prefix when prefixed blocks are off. The
/// error names the bracket and its position, and the whole text is consumed.
/// (Where the bracket may open a block, the end of the text closes the
/// block, and the text is a token.)
pub proof fn theorem_open_bracket_refused(
    d: Delimiters,
    cfg: ScanConfig,
    prefix: Seq<char>,
    open: char,
)
    requires
        d.valid(),
        open == d.bracket.0 || (d.obracket matches Some(o) && open == o.0),
        open != d.bracket.1,
        cfg.cend != open,
        forall|i: int| 0 <= i < prefix.len() ==> is_plain_char(d, cfg, #[trigger] prefix[i]),
        prefix.len() <= usize::MAX,
        prefix.len() == 0 ==> !cfg.flags.mainbracket_beginstandalone,
        prefix.len() > 0 ==> !cfg.flags.mainbracket_beginprefixed,
    ensures
        next_token(d, cfg, prefix.push(open)) == (Scanned::Failed {
            err: TokenError {
                kind: if prefix.len() == 0 {
                    ErrorKind::BracketAtStartNotAllowed
                } else {
                    ErrorKind::BracketNotAllowedMidToken
                },
                ch: open,
                pos: prefix.len() as usize,
            },
            partial: prefix,
            rest: prefix.len() as int + 1,
        }),
{
    let text = prefix.push(open);
    let p = prefix.len() as int;
    let st0 = TokState::initial();
    let st1 = if p == 0 {
        st0
    } else {
        TokState { phase: Phase::BtwNormal, tok: prefix, toktype: TokenType::Normal, ..st0 }
    };
    if p > 0 {
        lemma_step_plain(d, cfg, st0, text[0]);
        let first = st0.typed(TokenType::Normal).goto(Phase::BtwNormal).push(text[0]);
        assert(scan_from(d, cfg, text, 0, st0) == scan_from(d, cfg, text, 1, first));
        lemma_scan_plain_run(d, cfg, text, 1, p, first);
        assert(first.tok + text.subrange(1, p) =~= prefix);
    } else {
        assert(prefix =~= st0.tok);
    }
    assert(scan_from(d, cfg, text, 0, st0) == scan_from(d, cfg, text, p, st1));
    lemma_step_unfolded(d, cfg, st1, open);
}

} // verus!
