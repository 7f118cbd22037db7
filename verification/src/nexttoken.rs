//! The scanning machinery: an ordered chain of character classifiers working
//! against the phase in which a token currently is.
//!
//! For each character the classifiers are asked in order. One that does not
//! recognise the character passes it on; the first one that does says what
//! happens: the character is taken and the scan moves on, the token is
//! complete, or the input is malformed. `CharType::classify` is the
//! mathematical account of one classifier, and `chain_step` that of a whole
//! chain; the executable functions are proved against them.

use crate::config::{Delimiters, Flags, TokenType};
use crate::error::{ErrorKind, TokenError};
use crate::escapes::EscSeqMap;
use crate::text::{char_indices, char_offsets};
use vstd::prelude::*;

verus! {

/// Where the scan is within the token under construction.
#[derive(Debug, Clone, Copy, PartialEq, Eq, Structural)]
pub enum Phase {
    /// No token content seen yet.
    Begin,
    /// Inside a plain token.
    BtwNormal,
    /// Inside a quoted block.
    BtwString,
    /// Inside a bracketed block: the begin character of the bracket family
    /// that is open, and how many of its brackets are open.
    BtwBracket(char, usize),
    /// A block has ended; the active delimiter is expected.
    EndSeekDelim,
    /// The token has ended; spaces after it may still be absorbed.
    EndCleanup,
}

/// What a classifier says about the current character.
#[derive(Debug, Clone, Copy, PartialEq, Eq, Structural)]
pub enum Action {
    /// The character is dealt with; go on with the next one.
    NextChar,
    /// Not this classifier's character; ask the next classifier.
    ContinueChain,
    /// The token is complete; the current character starts what follows.
    DoneBreak,
}

/// The part of the scan state that a classifier may change, apart from the
/// position where the next token starts.
pub struct TokState {
    pub phase: Phase,
    /// The previous character was an escape marker.
    pub escape: bool,
    /// The token text collected so far.
    pub tok: Seq<char>,
    pub toktype: TokenType,
}

/// What stays fixed during one scan.
pub struct ScanConfig {
    pub flags: Flags,
    /// The delimiter that ends a token in this scan.
    pub cend: char,
    pub escapes: Map<char, char>,
}

/// The result of showing one character to a classifier or to a chain.
pub struct Outcome {
    pub flow: Result<Action, ErrorKind>,
    pub state: TokState,
    /// The current position is recorded as the place where the consumed
    /// region ends.
    pub mark: bool,
}

impl TokState {
    /// The state in which every scan begins.
    pub open spec fn initial() -> TokState {
        TokState {
            phase: Phase::Begin,
            escape: false,
            tok: Seq::empty(),
            toktype: TokenType::Unknown,
        }
    }

    pub open spec fn push(self, ch: char) -> TokState {
        TokState { tok: self.tok.push(ch), ..self }
    }

    pub open spec fn push_if(self, cond: bool, ch: char) -> TokState {
        if cond {
            self.push(ch)
        } else {
            self
        }
    }

    pub open spec fn goto(self, phase: Phase) -> TokState {
        TokState { phase, ..self }
    }

    pub open spec fn typed(self, toktype: TokenType) -> TokState {
        TokState { toktype, ..self }
    }

    /// The character is not for this classifier.
    pub open spec fn pass(self) -> Outcome {
        Outcome { flow: Ok(Action::ContinueChain), state: self, mark: false }
    }

    /// The character is taken.
    pub open spec fn next(self) -> Outcome {
        Outcome { flow: Ok(Action::NextChar), state: self, mark: false }
    }

    /// The character is taken and its position recorded.
    pub open spec fn next_marked(self) -> Outcome {
        Outcome { flow: Ok(Action::NextChar), state: self, mark: true }
    }

    /// The token ends before the character.
    pub open spec fn done(self) -> Outcome {
        Outcome { flow: Ok(Action::DoneBreak), state: self, mark: true }
    }

    pub open spec fn fail(self, kind: ErrorKind) -> Outcome {
        Outcome { flow: Err(kind), state: self, mark: false }
    }

    pub open spec fn fail_marked(self, kind: ErrorKind) -> Outcome {
        Outcome { flow: Err(kind), state: self, mark: true }
    }
}

impl Outcome {
    pub open spec fn passes(self) -> bool {
        self.flow == Ok::<Action, ErrorKind>(Action::ContinueChain)
    }
}

/// The phase after a block has closed.
pub open spec fn after_block(flags: Flags, string_block: bool) -> Phase {
    if flags.blocktok_dlimuser_endreqd {
        Phase::EndSeekDelim
    } else if string_block && flags.string_canbe_asubpart {
        Phase::BtwNormal
    } else {
        Phase::EndCleanup
    }
}

/// A classifier of characters.
#[derive(Debug, Clone, Copy, PartialEq, Eq, Structural)]
pub enum CharType {
    /// The escape marker. The character after it loses any structural
    /// meaning; with expansion on it is replaced through the escape table.
    EscSeq(char),
    /// The space character: trimmed around a token when trimming is on, and
    /// a delimiter when it is the active one.
    DelimSpace(char),
    /// The caller's delimiter, when it is not the space character.
    DelimNormal(char),
    /// The quote that opens and closes a quoted block.
    DelimString(char),
    /// The begin and end characters of one bracket family. The family that
    /// opens a block stays in charge until that block closes; the characters
    /// of another family are ordinary content inside it.
    DelimBracket(char, char),
    /// Every other character.
    Normal,
}

impl CharType {
    /// What this classifier does with `ch` when the scan is in state `st`.
    pub open spec fn classify(self, cfg: ScanConfig, st: TokState, ch: char) -> Outcome {
        match self {
            CharType::EscSeq(chk) => Self::classify_escape(chk, cfg, st, ch),
            CharType::DelimSpace(chk) => Self::classify_space(chk, cfg, st, ch),
            CharType::DelimNormal(chk) => Self::classify_delim(chk, cfg, st, ch),
            CharType::DelimString(chk) => Self::classify_quote(chk, cfg, st, ch),
            CharType::DelimBracket(b, e) => Self::classify_bracket(b, e, cfg, st, ch),
            CharType::Normal => Self::classify_other(st, ch),
        }
    }

    /// The escape marker opens an escape sequence inside a token, is an
    /// error where a token would begin, and is left to the other classifiers
    /// after a token has logically ended. The character after the marker is
    /// replaced through the table, or kept as it is when expansion is off.
    pub open spec fn classify_escape(
        chk: char,
        cfg: ScanConfig,
        st: TokState,
        ch: char,
    ) -> Outcome {
        if st.escape {
            let st = TokState { escape: false, ..st };
            if !cfg.flags.escapesequences_expand {
                st.push(ch).next()
            } else if cfg.escapes.contains_key(ch) {
                st.push(cfg.escapes[ch]).next()
            } else {
                st.fail(ErrorKind::UnknownEscapeSequence)
            }
        } else if ch != chk {
            st.pass()
        } else {
            match st.phase {
                Phase::BtwNormal | Phase::BtwString | Phase::BtwBracket(_, _) => (TokState {
                    escape: true,
                    ..st
                }).push_if(!cfg.flags.escapesequences_expand, ch).next(),
                Phase::Begin => st.fail(ErrorKind::EscapeAtTokenStart),
                _ => st.pass(),
            }
        }
    }

    /// The space character is a candidate for trimming whatever the
    /// delimiter of the scan is: with trimming on it is dropped before a
    /// token and absorbed behind one. Inside a plain token it ends the token
    /// if it is the delimiter, and is content otherwise; inside a block it is
    /// always content.
    pub open spec fn classify_space(chk: char, cfg: ScanConfig, st: TokState, ch: char) -> Outcome {
        if ch != chk {
            st.pass()
        } else {
            match st.phase {
                Phase::Begin => st.push_if(!cfg.flags.trim, ch).next(),
                Phase::BtwNormal => if chk == cfg.cend {
                    st.goto(Phase::EndCleanup).next_marked()
                } else {
                    st.push(ch).next()
                },
                Phase::BtwString | Phase::BtwBracket(_, _) => st.push(ch).next(),
                Phase::EndSeekDelim => if chk == cfg.cend {
                    st.goto(Phase::EndCleanup).next_marked()
                } else {
                    st.push_if(!cfg.flags.trim, ch).next_marked()
                },
                Phase::EndCleanup => if cfg.flags.trim {
                    st.next_marked()
                } else {
                    st.done()
                },
            }
        }
    }

    /// The caller's delimiter ends a plain token, also an empty one, and is
    /// consumed with it. Inside a block it is content. Behind a token that
    /// has ended already it is where the next token starts.
    pub open spec fn classify_delim(chk: char, cfg: ScanConfig, st: TokState, ch: char) -> Outcome {
        if ch != chk {
            st.pass()
        } else {
            match st.phase {
                Phase::BtwString | Phase::BtwBracket(_, _) => st.push(ch).next(),
                Phase::EndSeekDelim => if chk == cfg.cend {
                    st.goto(Phase::EndCleanup).next_marked()
                } else {
                    st.fail_marked(ErrorKind::ExpectedTrailingDelimiterAfterBlock)
                },
                Phase::EndCleanup => st.done(),
                Phase::Begin | Phase::BtwNormal => if chk == cfg.cend {
                    st.goto(Phase::EndCleanup).next_marked()
                } else {
                    st.push(ch).next()
                },
            }
        }
    }

    /// The quote opens a quoted block at the start of a token, or inside a
    /// plain token if quoted sub-parts are on, and closes the quoted block
    /// that is open. Inside a bracketed block it is content.
    pub open spec fn classify_quote(chk: char, cfg: ScanConfig, st: TokState, ch: char) -> Outcome {
        if ch != chk {
            st.pass()
        } else {
            match st.phase {
                Phase::Begin => st.typed(TokenType::String).goto(Phase::BtwString).push_if(
                    cfg.flags.stringquotes_retain,
                    ch,
                ).next(),
                Phase::BtwNormal => if cfg.flags.string_canbe_asubpart {
                    st.typed(TokenType::String).goto(Phase::BtwString).push(ch).next()
                } else {
                    st.push(ch).next()
                },
                Phase::BtwString => st.goto(after_block(cfg.flags, true)).push_if(
                    cfg.flags.stringquotes_retain,
                    ch,
                ).next_marked(),
                Phase::EndSeekDelim => st.fail_marked(
                    ErrorKind::ExpectedTrailingDelimiterAfterBlock,
                ),
                Phase::EndCleanup => st.done(),
                Phase::BtwBracket(_, _) => st.push(ch).next(),
            }
        }
    }

    /// A begin character opens a block where the flags allow one, and inside
    /// a block of its own family adds to the count of open brackets. An end
    /// character takes from that count and closes the block when the count
    /// comes to zero; outside a block it is an error. Inside a quoted block,
    /// and inside a block of another family, both are content.
    pub open spec fn classify_bracket(
        bchk: char,
        echk: char,
        cfg: ScanConfig,
        st: TokState,
        ch: char,
    ) -> Outcome {
        if ch == bchk {
            match st.phase {
                Phase::Begin => if cfg.flags.mainbracket_beginstandalone {
                    st.typed(TokenType::BracketStandalone).goto(Phase::BtwBracket(bchk, 1)).push(
                        ch,
                    ).next()
                } else {
                    st.fail(ErrorKind::BracketAtStartNotAllowed)
                },
                Phase::BtwNormal => if cfg.flags.mainbracket_beginprefixed {
                    st.typed(TokenType::BracketPrefixed).goto(Phase::BtwBracket(bchk, 1)).push(
                        ch,
                    ).next()
                } else {
                    st.fail(ErrorKind::BracketNotAllowedMidToken)
                },
                Phase::BtwString => st.push(ch).next(),
                Phase::BtwBracket(curb, cnt) => if curb == bchk {
                    st.goto(Phase::BtwBracket(curb, (cnt + 1) as usize)).push(ch).next()
                } else {
                    st.push(ch).next()
                },
                Phase::EndSeekDelim => st.fail_marked(
                    ErrorKind::ExpectedTrailingDelimiterAfterBlock,
                ),
                Phase::EndCleanup => st.done(),
            }
        } else if ch == echk {
            match st.phase {
                Phase::Begin => st.fail(ErrorKind::ClosingBracketAtTokenStart),
                Phase::BtwNormal => st.fail(ErrorKind::ClosingBracketWithoutOpenBracket),
                Phase::BtwString => st.push(ch).next(),
                Phase::BtwBracket(curb, cnt) => if curb != bchk {
                    st.push(ch).next()
                } else if cnt == 1 {
                    st.goto(after_block(cfg.flags, false)).push(ch).next_marked()
                } else {
                    st.goto(Phase::BtwBracket(curb, (cnt - 1) as usize)).push(ch).next()
                },
                Phase::EndSeekDelim => st.fail_marked(
                    ErrorKind::ExpectedTrailingDelimiterAfterBlock,
                ),
                Phase::EndCleanup => st.done(),
            }
        } else {
            st.pass()
        }
    }

    /// Any character begins or continues a plain token, and is content
    /// inside a block. Behind a block that wants a delimiter it is an error.
    pub open spec fn classify_other(st: TokState, ch: char) -> Outcome {
        match st.phase {
            Phase::Begin => st.typed(TokenType::Normal).goto(Phase::BtwNormal).push(ch).next(),
            Phase::EndSeekDelim => st.fail_marked(ErrorKind::ExpectedTrailingDelimiterAfterBlock),
            Phase::EndCleanup => st.done(),
            _ => st.push(ch).next(),
        }
    }
}

/// What a chain of classifiers, asked in order from index `k` on, does with
/// `ch`: the answer of the first classifier that does not pass.
pub open spec fn chain_step(
    chain: Seq<CharType>,
    k: int,
    cfg: ScanConfig,
    st: TokState,
    ch: char,
) -> Outcome
    decreases chain.len() - k,
{
    if k < 0 || k >= chain.len() {
        st.pass()
    } else {
        let out = chain[k].classify(cfg, st, ch);
        if out.passes() {
            chain_step(chain, k + 1, cfg, st, ch)
        } else {
            out
        }
    }
}

/// The exec-level result that stands for a spec-level flow.
pub open spec fn flow_result(flow: Result<Action, ErrorKind>, ch: char, pos: usize) -> Result<
    Action,
    TokenError,
> {
    match flow {
        Ok(a) => Ok(a),
        Err(kind) => Err(TokenError { kind, ch, pos }),
    }
}

/// The state of one token extraction.
#[derive(Debug)]
pub struct Ctxt {
    /// The characters of the text, each with its byte offset.
    pub vchars: Vec<(usize, char)>,
    /// The delimiter that the caller asked for.
    pub _dlimuser: char,
    /// The delimiter that ends the token.
    pub cend: char,
    pub mphase: Phase,
    /// The previous character was an escape marker.
    pub bescape: bool,
    /// The token under construction.
    pub tok: String,
    /// Index of the current character.
    pub ipos: usize,
    /// Byte offset of the current character.
    pub chpos: usize,
    /// The current character.
    pub ch: char,
    /// Byte offset up to which the text counts as consumed.
    pub nextpos: usize,
    pub esmap: EscSeqMap,
    pub f: Flags,
    pub toktype: TokenType,
}

impl Ctxt {
    /// The part of this context that classifiers work on.
    pub open spec fn state(&self) -> TokState {
        TokState {
            phase: self.mphase,
            escape: self.bescape,
            tok: self.tok@,
            toktype: self.toktype,
        }
    }

    /// The part of this context that stays fixed.
    pub open spec fn config(&self) -> ScanConfig {
        ScanConfig { flags: self.f, cend: self.cend, escapes: self.esmap@ }
    }

    /// The count of open brackets is at least one and at most the number of
    /// characters seen, so it can always grow by one.
    pub open spec fn wf(&self) -> bool {
        self.mphase matches Phase::BtwBracket(_, n) ==> 1 <= n <= self.ipos < usize::MAX
    }

    /// Everything that a classifier leaves alone is the same in both.
    pub open spec fn same_frame(&self, other: &Ctxt) -> bool {
        &&& self.vchars == other.vchars
        &&& self._dlimuser == other._dlimuser
        &&& self.cend == other.cend
        &&& self.ipos == other.ipos
        &&& self.chpos == other.chpos
        &&& self.ch == other.ch
        &&& self.esmap == other.esmap
        &&& self.f == other.f
    }

    /// `self` is what `before` becomes by `out`.
    pub open spec fn follows(&self, before: &Ctxt, out: Outcome) -> bool {
        &&& self.same_frame(before)
        &&& self.state() == out.state
        &&& self.nextpos == if out.mark {
            before.chpos
        } else {
            before.nextpos
        }
    }

    /// A fresh context for `thestr`, with `dlim` as the delimiter that ends
    /// the token.
    pub fn new(thestr: &str, dlim: char, esmap: EscSeqMap, flags: Flags) -> (x: Ctxt)
        ensures
            x.vchars@ == char_offsets(thestr@),
            x.state() == TokState::initial(),
            x.config() == (ScanConfig { flags, cend: dlim, escapes: esmap@ }),
            x._dlimuser == dlim,
            x.ipos == 0,
            x.chpos == 0,
            x.ch == ' ',
            x.nextpos == 0,
    {
        Ctxt {
            vchars: char_indices(thestr),
            _dlimuser: dlim,
            cend: dlim,
            mphase: Phase::Begin,
            bescape: false,
            tok: String::new(),
            ipos: 0,
            chpos: 0,
            ch: ' ',
            nextpos: 0,
            esmap,
            f: flags,
            toktype: TokenType::Unknown,
        }
    }

    /// Moves the cursor to character `i`.
    pub fn seek(&mut self, i: usize)
        requires
            i < old(self).vchars.len(),
        ensures
            final(self).ipos == i,
            (final(self).chpos, final(self).ch) == old(self).vchars[i as int],
            final(self).vchars == old(self).vchars,
            final(self).state() == old(self).state(),
            final(self).config() == old(self).config(),
            final(self)._dlimuser == old(self)._dlimuser,
            final(self).nextpos == old(self).nextpos,
    {
        let (chpos, ch) = self.vchars[i];
        self.chpos = chpos;
        self.ch = ch;
        self.ipos = i;
    }

    fn fail(&self, kind: ErrorKind) -> (r: Result<Action, TokenError>)
        ensures
            r == flow_result(Err(kind), self.ch, self.ipos),
    {
        Err(TokenError { kind, ch: self.ch, pos: self.ipos })
    }
}

impl CharType {
    /// Shows the current character of `x` to this classifier, which updates
    /// `x` and says how the scan goes on, exactly as `classify` describes.
    pub fn process_char(&self, x: &mut Ctxt) -> (r: Result<Action, TokenError>)
        requires
            old(x).wf(),
        ensures
            final(x).follows(
                old(x),
                self.classify(old(x).config(), old(x).state(), old(x).ch),
            ),
            r == flow_result(
                self.classify(old(x).config(), old(x).state(), old(x).ch).flow,
                old(x).ch,
                old(x).ipos,
            ),
            final(x).mphase matches Phase::BtwBracket(_, n) ==> 1 <= n <= old(x).ipos + 1,
    {
        match *self {
            CharType::EscSeq(chk) => Self::process_escape(chk, x),
            CharType::DelimSpace(chk) => Self::process_space(chk, x),
            CharType::DelimNormal(chk) => Self::process_delim(chk, x),
            CharType::DelimString(chk) => Self::process_quote(chk, x),
            CharType::DelimBracket(bchk, echk) => Self::process_bracket(bchk, echk, x),
            CharType::Normal => Self::process_other(x),
        }
    }

    fn process_escape(chk: char, x: &mut Ctxt) -> (r: Result<Action, TokenError>)
        requires
            old(x).wf(),
        ensures
            final(x).follows(
                old(x),
                Self::classify_escape(chk, old(x).config(), old(x).state(), old(x).ch),
            ),
            r == flow_result(
                Self::classify_escape(chk, old(x).config(), old(x).state(), old(x).ch).flow,
                old(x).ch,
                old(x).ipos,
            ),
            final(x).mphase matches Phase::BtwBracket(_, n) ==> 1 <= n <= old(x).ipos + 1,
    {
        if !x.bescape {
            if x.ch != chk {
                return Ok(Action::ContinueChain);
            }
            match x.mphase {
                Phase::BtwNormal | Phase::BtwString | Phase::BtwBracket(_, _) => {
                    x.bescape = true;
                    if !x.f.escapesequences_expand {
                        x.tok.push(x.ch);
                    }
                    return Ok(Action::NextChar);
                },
                Phase::Begin => {
                    return x.fail(ErrorKind::EscapeAtTokenStart);
                },
                _ => {
                    return Ok(Action::ContinueChain);
                },
            }
        }
        x.bescape = false;
        if !x.f.escapesequences_expand {
            x.tok.push(x.ch);
        } else {
            match x.esmap.get(x.ch) {
                None => {
                    return x.fail(ErrorKind::UnknownEscapeSequence);
                },
                Some(replace) => {
                    x.tok.push(replace);
                },
            }
        }
        Ok(Action::NextChar)
    }

    fn process_space(chk: char, x: &mut Ctxt) -> (r: Result<Action, TokenError>)
        requires
            old(x).wf(),
        ensures
            final(x).follows(
                old(x),
                Self::classify_space(chk, old(x).config(), old(x).state(), old(x).ch),
            ),
            r == flow_result(
                Self::classify_space(chk, old(x).config(), old(x).state(), old(x).ch).flow,
                old(x).ch,
                old(x).ipos,
            ),
            final(x).mphase matches Phase::BtwBracket(_, n) ==> 1 <= n <= old(x).ipos + 1,
    {
        if x.ch != chk {
            return Ok(Action::ContinueChain);
        }
        match x.mphase {
            Phase::Begin => {
                if !x.f.trim {
                    x.tok.push(x.ch);
                }
                Ok(Action::NextChar)
            },
            Phase::BtwNormal => {
                if chk == x.cend {
                    x.nextpos = x.chpos;
                    x.mphase = Phase::EndCleanup;
                } else {
                    x.tok.push(x.ch);
                }
                Ok(Action::NextChar)
            },
            Phase::BtwString | Phase::BtwBracket(_, _) => {
                x.tok.push(x.ch);
                Ok(Action::NextChar)
            },
            Phase::EndSeekDelim => {
                x.nextpos = x.chpos;
                if chk == x.cend {
                    x.mphase = Phase::EndCleanup;
                } else if !x.f.trim {
                    x.tok.push(x.ch);
                }
                Ok(Action::NextChar)
            },
            Phase::EndCleanup => {
                x.nextpos = x.chpos;
                if x.f.trim {
                    Ok(Action::NextChar)
                } else {
                    Ok(Action::DoneBreak)
                }
            },
        }
    }

    fn process_delim(chk: char, x: &mut Ctxt) -> (r: Result<Action, TokenError>)
        requires
            old(x).wf(),
        ensures
            final(x).follows(
                old(x),
                Self::classify_delim(chk, old(x).config(), old(x).state(), old(x).ch),
            ),
            r == flow_result(
                Self::classify_delim(chk, old(x).config(), old(x).state(), old(x).ch).flow,
                old(x).ch,
                old(x).ipos,
            ),
            final(x).mphase matches Phase::BtwBracket(_, n) ==> 1 <= n <= old(x).ipos + 1,
    {
        if x.ch != chk {
            return Ok(Action::ContinueChain);
        }
        match x.mphase {
            Phase::BtwString | Phase::BtwBracket(_, _) => {
                x.tok.push(x.ch);
                Ok(Action::NextChar)
            },
            Phase::EndSeekDelim => {
                x.nextpos = x.chpos;
                if chk == x.cend {
                    x.mphase = Phase::EndCleanup;
                    return Ok(Action::NextChar);
                }
                x.fail(ErrorKind::ExpectedTrailingDelimiterAfterBlock)
            },
            Phase::EndCleanup => {
                x.nextpos = x.chpos;
                Ok(Action::DoneBreak)
            },
            _ => {
                if chk == x.cend {
                    x.nextpos = x.chpos;
                    x.mphase = Phase::EndCleanup;
                    return Ok(Action::NextChar);
                }
                x.tok.push(x.ch);
                Ok(Action::NextChar)
            },
        }
    }

    fn process_quote(chk: char, x: &mut Ctxt) -> (r: Result<Action, TokenError>)
        requires
            old(x).wf(),
        ensures
            final(x).follows(
                old(x),
                Self::classify_quote(chk, old(x).config(), old(x).state(), old(x).ch),
            ),
            r == flow_result(
                Self::classify_quote(chk, old(x).config(), old(x).state(), old(x).ch).flow,
                old(x).ch,
                old(x).ipos,
            ),
            final(x).mphase matches Phase::BtwBracket(_, n) ==> 1 <= n <= old(x).ipos + 1,
    {
        if x.ch != chk {
            return Ok(Action::ContinueChain);
        }
        match x.mphase {
            Phase::Begin => {
                x.toktype = TokenType::String;
                x.mphase = Phase::BtwString;
                if x.f.stringquotes_retain {
                    x.tok.push(x.ch);
                }
                Ok(Action::NextChar)
            },
            Phase::BtwNormal => {
                if x.f.string_canbe_asubpart {
                    x.toktype = TokenType::String;
                    x.mphase = Phase::BtwString;
                }
                // The quote stands in the middle of a token, so it is
                // kept whatever the retain flag says.
                x.tok.push(x.ch);
                Ok(Action::NextChar)
            },
            Phase::BtwString => {
                if x.f.blocktok_dlimuser_endreqd {
                    x.mphase = Phase::EndSeekDelim;
                } else if x.f.string_canbe_asubpart {
                    x.mphase = Phase::BtwNormal;
                } else {
                    x.mphase = Phase::EndCleanup;
                }
                x.nextpos = x.chpos;
                if x.f.stringquotes_retain {
                    x.tok.push(x.ch);
                }
                Ok(Action::NextChar)
            },
            Phase::EndSeekDelim => {
                x.nextpos = x.chpos;
                x.fail(ErrorKind::ExpectedTrailingDelimiterAfterBlock)
            },
            Phase::EndCleanup => {
                x.nextpos = x.chpos;
                Ok(Action::DoneBreak)
            },
            Phase::BtwBracket(_, _) => {
                x.tok.push(x.ch);
                Ok(Action::NextChar)
            },
        }
    }

    fn process_bracket(bchk: char, echk: char, x: &mut Ctxt) -> (r: Result<Action, TokenError>)
        requires
            old(x).wf(),
        ensures
            final(x).follows(
                old(x),
                Self::classify_bracket(bchk, echk, old(x).config(), old(x).state(), old(x).ch),
            ),
            r == flow_result(
                Self::classify_bracket(bchk, echk, old(x).config(), old(x).state(), old(x).ch).flow,
                old(x).ch,
                old(x).ipos,
            ),
            final(x).mphase matches Phase::BtwBracket(_, n) ==> 1 <= n <= old(x).ipos + 1,
    {
        if x.ch == bchk {
            match x.mphase {
                Phase::Begin => {
                    if !x.f.mainbracket_beginstandalone {
                        return x.fail(ErrorKind::BracketAtStartNotAllowed);
                    }
                    x.toktype = TokenType::BracketStandalone;
                    x.mphase = Phase::BtwBracket(bchk, 1);
                    x.tok.push(x.ch);
                    Ok(Action::NextChar)
                },
                Phase::BtwNormal => {
                    if !x.f.mainbracket_beginprefixed {
                        return x.fail(ErrorKind::BracketNotAllowedMidToken);
                    }
                    x.toktype = TokenType::BracketPrefixed;
                    x.mphase = Phase::BtwBracket(bchk, 1);
                    x.tok.push(x.ch);
                    Ok(Action::NextChar)
                },
                Phase::BtwString => {
                    x.tok.push(x.ch);
                    Ok(Action::NextChar)
                },
                Phase::BtwBracket(curb, cnt) => {
                    if curb == bchk {
                        x.mphase = Phase::BtwBracket(curb, cnt + 1);
                    }
                    x.tok.push(x.ch);
                    Ok(Action::NextChar)
                },
                Phase::EndSeekDelim => {
                    x.nextpos = x.chpos;
                    x.fail(ErrorKind::ExpectedTrailingDelimiterAfterBlock)
                },
                Phase::EndCleanup => {
                    x.nextpos = x.chpos;
                    Ok(Action::DoneBreak)
                },
            }
        } else if x.ch == echk {
            match x.mphase {
                Phase::Begin => x.fail(ErrorKind::ClosingBracketAtTokenStart),
                Phase::BtwNormal => x.fail(ErrorKind::ClosingBracketWithoutOpenBracket),
                Phase::BtwString => {
                    x.tok.push(x.ch);
                    Ok(Action::NextChar)
                },
                Phase::BtwBracket(curb, cnt) => {
                    if curb != bchk {
                        x.tok.push(x.ch);
                        return Ok(Action::NextChar);
                    }
                    let cnt: usize = cnt - 1;
                    x.tok.push(x.ch);
                    if cnt == 0 {
                        x.nextpos = x.chpos;
                        if x.f.blocktok_dlimuser_endreqd {
                            x.mphase = Phase::EndSeekDelim;
                        } else {
                            x.mphase = Phase::EndCleanup;
                        }
                        return Ok(Action::NextChar);
                    }
                    x.mphase = Phase::BtwBracket(curb, cnt);
                    Ok(Action::NextChar)
                },
                Phase::EndSeekDelim => {
                    x.nextpos = x.chpos;
                    x.fail(ErrorKind::ExpectedTrailingDelimiterAfterBlock)
                },
                Phase::EndCleanup => {
                    x.nextpos = x.chpos;
                    Ok(Action::DoneBreak)
                },
            }
        } else {
            Ok(Action::ContinueChain)
        }
    }

    fn process_other(x: &mut Ctxt) -> (r: Result<Action, TokenError>)
        requires
            old(x).wf(),
        ensures
            final(x).follows(
                old(x),
                Self::classify_other(old(x).state(), old(x).ch),
            ),
            r == flow_result(
                Self::classify_other(old(x).state(), old(x).ch).flow,
                old(x).ch,
                old(x).ipos,
            ),
            final(x).mphase matches Phase::BtwBracket(_, n) ==> 1 <= n <= old(x).ipos + 1,
    {
        match x.mphase {
            Phase::Begin => {
                x.toktype = TokenType::Normal;
                x.mphase = Phase::BtwNormal;
            },
            Phase::EndSeekDelim => {
                x.nextpos = x.chpos;
                return x.fail(ErrorKind::ExpectedTrailingDelimiterAfterBlock);
            },
            Phase::EndCleanup => {
                x.nextpos = x.chpos;
                return Ok(Action::DoneBreak);
            },
            _ => (),
        }
        x.tok.push(x.ch);
        Ok(Action::NextChar)
    }
}

/// The classifiers for a set of delimiter characters, in the order in which
/// they are asked: escape first, so that an escaped character is never taken
/// for a structural one; then the caller's delimiter, if it is not the space;
/// then space, quote and the bracket families; last the catch-all.
pub open spec fn chain_of(
    delimescseq: char,
    delimspace: char,
    delimstring: char,
    delimbracket: (char, char),
    normaldelim: Option<char>,
    odelimbracket: Option<(char, char)>,
) -> Seq<CharType> {
    let first = seq![CharType::EscSeq(delimescseq)];
    let user = match normaldelim {
        Some(delim) => if delim != delimspace {
            first.push(CharType::DelimNormal(delim))
        } else {
            first
        },
        None => first,
    };
    let fixed = user.push(CharType::DelimSpace(delimspace)).push(
        CharType::DelimString(delimstring),
    ).push(CharType::DelimBracket(delimbracket.0, delimbracket.1));
    let second = match odelimbracket {
        Some(o) => fixed.push(CharType::DelimBracket(o.0, o.1)),
        None => fixed,
    };
    second.push(CharType::Normal)
}

/// The chain for a delimiter set and the delimiter of one scan.
pub open spec fn standard_chain(d: Delimiters, delim: char) -> Seq<CharType> {
    chain_of(d.escseq, d.space, d.string, d.bracket, Some(delim), d.obracket)
}

/// The ordered list of classifiers that a scan consults for each character.
#[derive(Debug)]
pub struct VCharTypes {
    pub vct: Vec<CharType>,
}

impl VCharTypes {
    /// The chain for the given characters; `normaldelim` is the caller's
    /// delimiter, which gets a classifier of its own unless it is the space.
    pub fn from_chars(
        delimescseq: char,
        delimspace: char,
        delimstring: char,
        delimbracket: (char, char),
        normaldelim: Option<char>,
        odelimbracket: Option<(char, char)>,
    ) -> (v: VCharTypes)
        ensures
            v.vct@ == chain_of(
                delimescseq,
                delimspace,
                delimstring,
                delimbracket,
                normaldelim,
                odelimbracket,
            ),
    {
        let mut vct: Vec<CharType> = Vec::new();
        vct.push(CharType::EscSeq(delimescseq));
        match normaldelim {
            Some(delim) => {
                if delim != delimspace {
                    vct.push(CharType::DelimNormal(delim));
                }
            },
            None => {},
        }
        vct.push(CharType::DelimSpace(delimspace));
        vct.push(CharType::DelimString(delimstring));
        vct.push(CharType::DelimBracket(delimbracket.0, delimbracket.1));
        match odelimbracket {
            Some(obracket) => {
                vct.push(CharType::DelimBracket(obracket.0, obracket.1));
            },
            None => {},
        }
        vct.push(CharType::Normal);
        assert(vct@ =~= chain_of(
            delimescseq,
            delimspace,
            delimstring,
            delimbracket,
            normaldelim,
            odelimbracket,
        ));
        VCharTypes { vct }
    }

    /// The chain for a delimiter set.
    pub fn from_delimiters(delims: &Delimiters, normaldelim: Option<char>) -> (v: VCharTypes)
        ensures
            v.vct@ == chain_of(
                delims.escseq,
                delims.space,
                delims.string,
                delims.bracket,
                normaldelim,
                delims.obracket,
            ),
    {
        Self::from_chars(
            delims.escseq,
            delims.space,
            delims.string,
            delims.bracket,
            normaldelim,
            delims.obracket,
        )
    }

    /// Shows the current character of `x` to the classifiers in order and
    /// stops at the first that does not pass. If all pass, `x` is as before.
    pub fn run_chain(&self, x: &mut Ctxt) -> (r: Result<Action, TokenError>)
        requires
            old(x).wf(),
        ensures
            final(x).follows(
                old(x),
                chain_step(self.vct@, 0, old(x).config(), old(x).state(), old(x).ch),
            ),
            r == flow_result(
                chain_step(self.vct@, 0, old(x).config(), old(x).state(), old(x).ch).flow,
                old(x).ch,
                old(x).ipos,
            ),
            final(x).mphase matches Phase::BtwBracket(_, n) ==> 1 <= n <= old(x).ipos + 1,
    {
        let ghost before = *x;
        let mut k: usize = 0;
        while k < self.vct.len()
            invariant
                k <= self.vct.len(),
                before == *old(x),
                x.wf(),
                x.same_frame(&before),
                x.state() == before.state(),
                x.nextpos == before.nextpos,
                chain_step(self.vct@, 0, before.config(), before.state(), before.ch) == chain_step(
                    self.vct@,
                    k as int,
                    before.config(),
                    before.state(),
                    before.ch,
                ),
            decreases self.vct.len() - k,
        {
            match self.vct[k].process_char(x) {
                Ok(Action::ContinueChain) => {
                    k += 1;
                },
                other => {
                    return other;
                },
            }
        }
        Ok(Action::ContinueChain)
    }
}

} // verus!
