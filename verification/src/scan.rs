//! What extracting tokens from a text means, stated on sequences of
//! characters: one token (`next_token`), all of them (`all_tokens`), and the
//! first few with the unsplit remainder (`split_n`).
//!
//! Positions in this module count characters.

use crate::config::{Delimiters, Flags, TokenType};
use crate::error::{ErrorKind, TokenError};
use crate::nexttoken::{
    chain_step,
    standard_chain,
    Action,
    CharType,
    Outcome,
    ScanConfig,
    TokState,
};
use crate::text::trim_end;
use vstd::prelude::*;

verus! {

/// The configuration of a scan that uses `flags` with `trim` as asked for in
/// the call, and `delim` as the delimiter.
pub open spec fn scan_config(
    flags: Flags,
    escapes: Map<char, char>,
    delim: char,
    trim: bool,
) -> ScanConfig {
    ScanConfig { flags: flags.with_trim(trim), cend: delim, escapes }
}

/// What one character does to the scan state under the standard chain.
pub open spec fn step(d: Delimiters, cfg: ScanConfig, st: TokState, ch: char) -> Outcome {
    chain_step(standard_chain(d, cfg.cend), 0, cfg, st, ch)
}

/// `a` unless it passes, else `b`.
pub open spec fn first_of(a: Outcome, b: Outcome) -> Outcome {
    if a.passes() {
        b
    } else {
        a
    }
}

/// `step` written out classifier by classifier.
pub open spec fn step_unfolded(d: Delimiters, cfg: ScanConfig, st: TokState, ch: char) -> Outcome {
    first_of(
        CharType::classify_escape(d.escseq, cfg, st, ch),
        first_of(
            if cfg.cend != d.space {
                CharType::classify_delim(cfg.cend, cfg, st, ch)
            } else {
                st.pass()
            },
            first_of(
                CharType::classify_space(d.space, cfg, st, ch),
                first_of(
                    CharType::classify_quote(d.string, cfg, st, ch),
                    first_of(
                        CharType::classify_bracket(d.bracket.0, d.bracket.1, cfg, st, ch),
                        first_of(
                            match d.obracket {
                                Some(o) => CharType::classify_bracket(o.0, o.1, cfg, st, ch),
                                None => st.pass(),
                            },
                            CharType::classify_other(st, ch),
                        ),
                    ),
                ),
            ),
        ),
    )
}

/// The standard chain, written out.
pub open spec fn standard_chain_listed(d: Delimiters, delim: char) -> Seq<CharType> {
    let esc = CharType::EscSeq(d.escseq);
    let usr = CharType::DelimNormal(delim);
    let spc = CharType::DelimSpace(d.space);
    let quo = CharType::DelimString(d.string);
    let brk = CharType::DelimBracket(d.bracket.0, d.bracket.1);
    match d.obracket {
        Some(o) => if delim != d.space {
            seq![esc, usr, spc, quo, brk, CharType::DelimBracket(o.0, o.1), CharType::Normal]
        } else {
            seq![esc, spc, quo, brk, CharType::DelimBracket(o.0, o.1), CharType::Normal]
        },
        None => if delim != d.space {
            seq![esc, usr, spc, quo, brk, CharType::Normal]
        } else {
            seq![esc, spc, quo, brk, CharType::Normal]
        },
    }
}

// The characters of the bracket pairs are handed in as values of their own:
// taken out of a pair they are not known to the solver as characters, which
// every fact about a sequence of classifiers needs.
proof fn lemma_standard_chain_for(
    d: Delimiters,
    delim: char,
    begin: char,
    end: char,
    begin2: char,
    end2: char,
)
    requires
        d.bracket == (begin, end),
        d.obracket matches Some(o) ==> o == (begin2, end2),
    ensures
        standard_chain(d, delim) == standard_chain_listed(d, delim),
{
    assert(standard_chain(d, delim) =~= standard_chain_listed(d, delim));
}

/// `standard_chain` and `standard_chain_listed` are the same chain.
pub proof fn lemma_standard_chain(d: Delimiters, delim: char)
    ensures
        standard_chain(d, delim) == standard_chain_listed(d, delim),
{
    match d.obracket {
        Some(o) => lemma_standard_chain_for(d, delim, d.bracket.0, d.bracket.1, o.0, o.1),
        None => lemma_standard_chain_for(d, delim, d.bracket.0, d.bracket.1, ' ', ' '),
    }
}

proof fn lemma_step_unfolded_for(
    d: Delimiters,
    cfg: ScanConfig,
    st: TokState,
    ch: char,
    begin: char,
    end: char,
    begin2: char,
    end2: char,
)
    requires
        d.bracket == (begin, end),
        d.obracket matches Some(o) ==> o == (begin2, end2),
    ensures
        step(d, cfg, st, ch) == step_unfolded(d, cfg, st, ch),
{
    reveal_with_fuel(chain_step, 8);
    lemma_standard_chain(d, cfg.cend);
    let chain = standard_chain_listed(d, cfg.cend);
    if cfg.cend != d.space {
        assert(chain[1] == CharType::DelimNormal(cfg.cend));
        assert(chain[4] == CharType::DelimBracket(begin, end));
        if d.obracket is Some {
            assert(chain[5] == CharType::DelimBracket(begin2, end2));
            assert(chain.len() == 7);
        } else {
            assert(chain.len() == 6);
        }
    } else {
        assert(chain[3] == CharType::DelimBracket(begin, end));
        if d.obracket is Some {
            assert(chain[4] == CharType::DelimBracket(begin2, end2));
            assert(chain.len() == 6);
        } else {
            assert(chain.len() == 5);
        }
    }
}

/// The standard chain asks the classifiers in the order that `step_unfolded`
/// spells out.
pub proof fn lemma_step_unfolded(d: Delimiters, cfg: ScanConfig, st: TokState, ch: char)
    ensures
        step(d, cfg, st, ch) == step_unfolded(d, cfg, st, ch),
{
    match d.obracket {
        Some(o) => lemma_step_unfolded_for(d, cfg, st, ch, d.bracket.0, d.bracket.1, o.0, o.1),
        None => lemma_step_unfolded_for(d, cfg, st, ch, d.bracket.0, d.bracket.1, ' ', ' '),
    }
}

/// How the extraction of one token ends.
pub enum Scanned {
    /// A token, its kind, and the number of characters consumed.
    Token { tok: Seq<char>, kind: TokenType, rest: int },
    /// An error, the token text collected before it, and the number of
    /// characters consumed: everything up to and including the offender.
    Failed { err: TokenError, partial: Seq<char>, rest: int },
}

impl Scanned {
    /// The number of characters consumed.
    pub open spec fn consumed(self) -> int {
        match self {
            Scanned::Token { rest, .. } => rest,
            Scanned::Failed { rest, .. } => rest,
        }
    }
}

/// The scan of `text` from character `i` on, in state `st`. It stops before
/// the character at which a classifier reports the token complete, after the
/// character at which one reports an error, or at the end of the text, which
/// closes whatever token is open.
pub open spec fn scan_from(
    d: Delimiters,
    cfg: ScanConfig,
    text: Seq<char>,
    i: int,
    st: TokState,
) -> Scanned
    decreases text.len() - i,
{
    if i < 0 || i >= text.len() {
        Scanned::Token { tok: st.tok, kind: st.toktype, rest: text.len() as int }
    } else {
        let out = step(d, cfg, st, text[i]);
        match out.flow {
            Ok(Action::DoneBreak) => Scanned::Token {
                tok: out.state.tok,
                kind: out.state.toktype,
                rest: i,
            },
            Ok(_) => scan_from(d, cfg, text, i + 1, out.state),
            Err(kind) => Scanned::Failed {
                err: TokenError { kind, ch: text[i], pos: i as usize },
                partial: out.state.tok,
                rest: i + 1,
            },
        }
    }
}

/// The token text as it is handed out: stripped of the whitespace at its
/// end when trimming and the final trim pass are both on. This is what takes
/// away the spaces that stand before a delimiter other than the space.
pub open spec fn finished(flags: Flags, tok: Seq<char>) -> Seq<char> {
    if flags.trim && flags.trim_atend {
        trim_end(tok)
    } else {
        tok
    }
}

/// The extraction of the next token from `text`.
pub open spec fn next_token(d: Delimiters, cfg: ScanConfig, text: Seq<char>) -> Scanned {
    match scan_from(d, cfg, text, 0, TokState::initial()) {
        Scanned::Token { tok, kind, rest } => Scanned::Token {
            tok: finished(cfg.flags, tok),
            kind,
            rest,
        },
        failed => failed,
    }
}

/// A token is reported complete only after it has logically ended, and the
/// report changes nothing but the recorded position. Some classifier always
/// takes the character.
pub proof fn lemma_done_needs_cleanup(d: Delimiters, cfg: ScanConfig, st: TokState, ch: char)
    ensures
        step(d, cfg, st, ch).flow == Ok::<Action, ErrorKind>(Action::DoneBreak) ==> st.phase
            is EndCleanup,
        step(d, cfg, st, ch).flow == Ok::<Action, ErrorKind>(Action::DoneBreak) ==> step(
            d,
            cfg,
            st,
            ch,
        ).mark && step(d, cfg, st, ch).state == st,
        !step(d, cfg, st, ch).passes(),
{
    lemma_step_unfolded(d, cfg, st, ch);
}

/// A scan consumes no more than there is, and at least one character unless
/// it starts at the end of the text or after the token has already ended.
pub proof fn lemma_scan_bounds(
    d: Delimiters,
    cfg: ScanConfig,
    text: Seq<char>,
    i: int,
    st: TokState,
)
    requires
        0 <= i <= text.len(),
    ensures
        i <= scan_from(d, cfg, text, i, st).consumed() <= text.len(),
        i < text.len() && !(st.phase is EndCleanup) ==> i < scan_from(
            d,
            cfg,
            text,
            i,
            st,
        ).consumed(),
    decreases text.len() - i,
{
    if i < text.len() {
        lemma_done_needs_cleanup(d, cfg, st, text[i]);
        let out = step(d, cfg, st, text[i]);
        match out.flow {
            Ok(Action::DoneBreak) => {},
            Ok(_) => {
                lemma_scan_bounds(d, cfg, text, i + 1, out.state);
            },
            Err(_) => {},
        }
    }
}

/// Every extraction from a text that is not empty consumes at least one
/// character of it, whether it yields a token or an error. So the number of
/// extractions needed to use up a text is at most its length.
pub proof fn lemma_next_token_progress(d: Delimiters, cfg: ScanConfig, text: Seq<char>)
    ensures
        0 <= next_token(d, cfg, text).consumed() <= text.len(),
        text.len() > 0 ==> next_token(d, cfg, text).consumed() >= 1,
{
    lemma_scan_bounds(d, cfg, text, 0, TokState::initial());
}

/// The outcome of an operation that extracts several tokens: the tokens or
/// the error that stopped it, and the text left over.
pub struct Tokens {
    pub result: Result<Seq<Seq<char>>, (TokenError, Seq<char>)>,
    pub rest: Seq<char>,
}

impl Tokens {
    /// These tokens with `tok` put in front, or the error unchanged.
    pub open spec fn after(self, tok: Seq<char>) -> Tokens {
        match self.result {
            Ok(toks) => Tokens { result: Ok(seq![tok] + toks), rest: self.rest },
            Err(_) => self,
        }
    }
}

/// All tokens of `text`: extraction is repeated until nothing is left. An
/// error ends it at once, with the text after the offending character left
/// over; unless `keep_going` is set, in which case the failed attempt is
/// skipped and extraction resumes behind it.
pub open spec fn all_tokens(
    d: Delimiters,
    cfg: ScanConfig,
    text: Seq<char>,
    keep_going: bool,
) -> Tokens
    decreases text.len(),
{
    if text.len() == 0 {
        Tokens { result: Ok(Seq::empty()), rest: text }
    } else {
        proof {
            lemma_next_token_progress(d, cfg, text);
        }
        let rest = text.skip(next_token(d, cfg, text).consumed());
        match next_token(d, cfg, text) {
            Scanned::Token { tok, .. } => all_tokens(d, cfg, rest, keep_going).after(tok),
            Scanned::Failed { err, partial, .. } => if keep_going {
                all_tokens(d, cfg, rest, keep_going)
            } else {
                Tokens { result: Err((err, partial)), rest }
            },
        }
    }
}

/// Up to `n` tokens of `text`, then whatever is left of it as one last
/// element, if anything is left. Extraction stops early when the text runs
/// out, and at the first error.
pub open spec fn split_n(d: Delimiters, cfg: ScanConfig, text: Seq<char>, n: nat) -> Tokens
    decreases n,
{
    if n == 0 {
        Tokens {
            result: Ok(
                if text.len() > 0 {
                    seq![text]
                } else {
                    Seq::empty()
                },
            ),
            rest: text,
        }
    } else {
        let rest = text.skip(next_token(d, cfg, text).consumed());
        match next_token(d, cfg, text) {
            Scanned::Token { tok, .. } => if rest.len() == 0 {
                Tokens { result: Ok(seq![tok]), rest }
            } else {
                split_n(d, cfg, rest, (n - 1) as nat).after(tok)
            },
            Scanned::Failed { err, partial, .. } => Tokens { result: Err((err, partial)), rest },
        }
    }
}

/// The number of extractions that `all_tokens` makes on `text`.
pub open spec fn extraction_count(d: Delimiters, cfg: ScanConfig, text: Seq<char>) -> nat
    decreases text.len(),
{
    if text.len() == 0 {
        0
    } else {
        proof {
            lemma_next_token_progress(d, cfg, text);
        }
        1 + extraction_count(d, cfg, text.skip(next_token(d, cfg, text).consumed()))
    }
}

/// Using up a text takes at most as many extractions as it has characters,
/// however malformed it is.
pub proof fn lemma_extraction_count_bounded(d: Delimiters, cfg: ScanConfig, text: Seq<char>)
    ensures
        extraction_count(d, cfg, text) <= text.len(),
    decreases text.len(),
{
    if text.len() > 0 {
        lemma_next_token_progress(d, cfg, text);
        lemma_extraction_count_bounded(d, cfg, text.skip(next_token(d, cfg, text).consumed()));
    }
}

} // verus!
