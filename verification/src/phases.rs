//! The scan as a state machine: for each phase of a token, what each class
//! of character does.
//!
//! `scan::step` describes a scan through the chain of classifiers. Here the
//! same scan is laid out the other way round, phase by phase, and the two
//! are proved to agree for every usable set of delimiters.

use crate::config::{Delimiters, TokenType};
use crate::error::ErrorKind;
use crate::nexttoken::{after_block, Outcome, Phase, ScanConfig, TokState};
use crate::scan::{lemma_step_unfolded, step};
use vstd::prelude::*;

verus! {

/// What a character is to a scan. Where a character has several roles, the
/// first in this order counts.
pub enum CharClass {
    /// The escape marker.
    Escape,
    /// The delimiter of the scan, when it is not the space character.
    Delimiter,
    /// The space character.
    Space,
    /// The quote.
    Quote,
    /// The begin character of the bracket family that begins with the given
    /// character.
    Open(char),
    /// The end character of the bracket family that begins with the given
    /// character.
    Close(char),
    /// Anything else.
    Other,
}

/// The class of `ch`.
pub open spec fn class_of(d: Delimiters, cfg: ScanConfig, ch: char) -> CharClass {
    if ch == d.escseq {
        CharClass::Escape
    } else if cfg.cend != d.space && ch == cfg.cend {
        CharClass::Delimiter
    } else if ch == d.space {
        CharClass::Space
    } else if ch == d.string {
        CharClass::Quote
    } else if ch == d.bracket.0 {
        CharClass::Open(d.bracket.0)
    } else if ch == d.bracket.1 {
        CharClass::Close(d.bracket.0)
    } else {
        match d.obracket {
            Some(o) => if ch == o.0 {
                CharClass::Open(o.0)
            } else if ch == o.1 {
                CharClass::Close(o.0)
            } else {
                CharClass::Other
            },
            None => CharClass::Other,
        }
    }
}

/// The character after an escape marker: replaced through the escape table,
/// or kept as it is when expansion is off.
pub open spec fn escaped(cfg: ScanConfig, st: TokState, ch: char) -> Outcome {
    let st = TokState { escape: false, ..st };
    if !cfg.flags.escapesequences_expand {
        st.push(ch).next()
    } else if cfg.escapes.contains_key(ch) {
        st.push(cfg.escapes[ch]).next()
    } else {
        st.fail(ErrorKind::UnknownEscapeSequence)
    }
}

/// An escape marker inside a token: the next character is escaped, and the
/// marker itself is kept only when expansion is off.
pub open spec fn escape_opens(cfg: ScanConfig, st: TokState, ch: char) -> Outcome {
    (TokState { escape: true, ..st }).push_if(!cfg.flags.escapesequences_expand, ch).next()
}

/// Before any token content.
pub open spec fn at_begin(cfg: ScanConfig, st: TokState, class: CharClass, ch: char) -> Outcome {
    match class {
        CharClass::Escape => st.fail(ErrorKind::EscapeAtTokenStart),
        CharClass::Delimiter => st.goto(Phase::EndCleanup).next_marked(),
        CharClass::Space => st.push_if(!cfg.flags.trim, ch).next(),
        CharClass::Quote => st.typed(TokenType::String).goto(Phase::BtwString).push_if(
            cfg.flags.stringquotes_retain,
            ch,
        ).next(),
        CharClass::Open(family) => if cfg.flags.mainbracket_beginstandalone {
            st.typed(TokenType::BracketStandalone).goto(Phase::BtwBracket(family, 1)).push(
                ch,
            ).next()
        } else {
            st.fail(ErrorKind::BracketAtStartNotAllowed)
        },
        CharClass::Close(_) => st.fail(ErrorKind::ClosingBracketAtTokenStart),
        CharClass::Other => st.typed(TokenType::Normal).goto(Phase::BtwNormal).push(ch).next(),
    }
}

/// Inside a plain token.
pub open spec fn in_plain(
    d: Delimiters,
    cfg: ScanConfig,
    st: TokState,
    class: CharClass,
    ch: char,
) -> Outcome {
    match class {
        CharClass::Escape => escape_opens(cfg, st, ch),
        CharClass::Delimiter => st.goto(Phase::EndCleanup).next_marked(),
        CharClass::Space => if d.space == cfg.cend {
            st.goto(Phase::EndCleanup).next_marked()
        } else {
            st.push(ch).next()
        },
        CharClass::Quote => if cfg.flags.string_canbe_asubpart {
            st.typed(TokenType::String).goto(Phase::BtwString).push(ch).next()
        } else {
            st.push(ch).next()
        },
        CharClass::Open(family) => if cfg.flags.mainbracket_beginprefixed {
            st.typed(TokenType::BracketPrefixed).goto(Phase::BtwBracket(family, 1)).push(ch).next()
        } else {
            st.fail(ErrorKind::BracketNotAllowedMidToken)
        },
        CharClass::Close(_) => st.fail(ErrorKind::ClosingBracketWithoutOpenBracket),
        CharClass::Other => st.push(ch).next(),
    }
}

/// Inside a quoted block: only the escape marker and the quote count.
pub open spec fn in_quoted(cfg: ScanConfig, st: TokState, class: CharClass, ch: char) -> Outcome {
    match class {
        CharClass::Escape => escape_opens(cfg, st, ch),
        CharClass::Quote => st.goto(after_block(cfg.flags, true)).push_if(
            cfg.flags.stringquotes_retain,
            ch,
        ).next_marked(),
        _ => st.push(ch).next(),
    }
}

/// Inside a bracketed block with `cnt` brackets of the family `curb` open:
/// only the escape marker and the brackets of that family count.
pub open spec fn in_bracketed(
    cfg: ScanConfig,
    st: TokState,
    curb: char,
    cnt: usize,
    class: CharClass,
    ch: char,
) -> Outcome {
    match class {
        CharClass::Escape => escape_opens(cfg, st, ch),
        CharClass::Open(family) => if family == curb {
            st.goto(Phase::BtwBracket(curb, (cnt + 1) as usize)).push(ch).next()
        } else {
            st.push(ch).next()
        },
        CharClass::Close(family) => if family != curb {
            st.push(ch).next()
        } else if cnt == 1 {
            st.goto(after_block(cfg.flags, false)).push(ch).next_marked()
        } else {
            st.goto(Phase::BtwBracket(curb, (cnt - 1) as usize)).push(ch).next()
        },
        _ => st.push(ch).next(),
    }
}

/// Behind a block that has to be followed by a delimiter: the delimiter
/// ends the token, the space character is let through, and anything else is
/// an error.
pub open spec fn awaiting_delimiter(
    d: Delimiters,
    cfg: ScanConfig,
    st: TokState,
    class: CharClass,
    ch: char,
) -> Outcome {
    match class {
        CharClass::Delimiter => st.goto(Phase::EndCleanup).next_marked(),
        CharClass::Space => if d.space == cfg.cend {
            st.goto(Phase::EndCleanup).next_marked()
        } else {
            st.push_if(!cfg.flags.trim, ch).next_marked()
        },
        _ => st.fail_marked(ErrorKind::ExpectedTrailingDelimiterAfterBlock),
    }
}

/// Behind the token: with trimming on, space characters are absorbed; any
/// other character is where the next token starts.
pub open spec fn finishing(cfg: ScanConfig, st: TokState, class: CharClass) -> Outcome {
    match class {
        CharClass::Space => if cfg.flags.trim {
            st.next_marked()
        } else {
            st.done()
        },
        _ => st.done(),
    }
}

/// What one character does to the scan state.
pub open spec fn transition(d: Delimiters, cfg: ScanConfig, st: TokState, ch: char) -> Outcome {
    let class = class_of(d, cfg, ch);
    if st.escape {
        escaped(cfg, st, ch)
    } else {
        match st.phase {
            Phase::Begin => at_begin(cfg, st, class, ch),
            Phase::BtwNormal => in_plain(d, cfg, st, class, ch),
            Phase::BtwString => in_quoted(cfg, st, class, ch),
            Phase::BtwBracket(curb, cnt) => in_bracketed(cfg, st, curb, cnt, class, ch),
            Phase::EndSeekDelim => awaiting_delimiter(d, cfg, st, class, ch),
            Phase::EndCleanup => finishing(cfg, st, class),
        }
    }
}

/// The chain of classifiers implements the state machine: with a valid set
/// of delimiters, and a delimiter that is not the escape marker, one
/// character does to a scan what `transition` says.
pub proof fn theorem_step_is_transition(d: Delimiters, cfg: ScanConfig, st: TokState, ch: char)
    requires
        d.valid(),
        cfg.cend != d.escseq,
    ensures
        step(d, cfg, st, ch) == transition(d, cfg, st, ch),
{
    lemma_step_unfolded(d, cfg, st, ch);
}

} // verus!
