//! The tokenisable string: a view into a line of text that shrinks from the
//! front as tokens are taken from it.

use crate::config::{Delimiters, Flags, TokenType};
use crate::error::{ErrorKind, TokenError};
use crate::escapes::{default_escapes, EscSeqMap};
use crate::nexttoken::{Action, Ctxt, Phase, ScanConfig, TokState, VCharTypes, standard_chain};
use crate::scan::{
    all_tokens,
    lemma_done_needs_cleanup,
    lemma_next_token_progress,
    next_token,
    scan_config,
    scan_from,
    split_n,
    Scanned,
    Tokens,
};
use crate::text::{
    byte_len,
    leading_ws,
    lemma_leading_ws,
    lemma_trailing_ws,
    trailing_ws,
    byte_offset,
    char_offsets,
    chars_of,
    lemma_byte_offset_boundary,
    lemma_byte_offset_mono,
    lemma_encode_concat,
    lemma_utf8_len_zero,
    skip_bytes,
    trim,
    trim_end_str,
    trim_start,
    trim_start_str,
    utf8_len,
};
use vstd::prelude::*;
use vstd::string::*;
use vstd::utf8::*;

verus! {

/// A byte count as it is kept in the counters: cut off at `isize::MAX`.
pub open spec fn clip(n: int) -> isize {
    if n > isize::MAX {
        isize::MAX
    } else {
        n as isize
    }
}

/// How many bytes of whitespace `trim` takes off the front of `text`.
pub open spec fn trimmed_prefix(text: Seq<char>) -> isize {
    clip(utf8_len(text) - utf8_len(trim_start(text)))
}

/// How many bytes of whitespace `trim` takes off the end of `text`.
pub open spec fn trimmed_suffix(text: Seq<char>) -> isize {
    clip(utf8_len(trim_start(text)) - utf8_len(trim(text)))
}

/// The views of the strings in `v`.
pub open spec fn strings_view(v: Seq<String>) -> Seq<Seq<char>> {
    Seq::new(v.len(), |i: int| v[i]@)
}

/// Index of the first `c` in `s`, or the length of `s` if there is none.
pub open spec fn position_of(s: Seq<char>, c: char) -> int
    decreases s.len(),
{
    if s.len() == 0 || s[0] == c {
        0
    } else {
        1 + position_of(s.drop_first(), c)
    }
}

/// An index where `c` stands with no `c` before it is `position_of`.
pub proof fn lemma_position_of_is(s: Seq<char>, c: char, k: int)
    requires
        0 <= k <= s.len(),
        forall|i: int| 0 <= i < k ==> #[trigger] s[i] != c,
        k < s.len() ==> s[k] == c,
    ensures
        position_of(s, c) == k,
    decreases k,
{
    if k > 0 {
        let r = s.drop_first();
        assert(s[0] != c);
        assert forall|i: int| 0 <= i < k - 1 implies #[trigger] r[i] != c by {
            assert(r[i] == s[i + 1]);
        }
        lemma_position_of_is(r, c, k - 1);
    }
}

/// What a bracket holds: `rest` is the text behind the opening bracket, and
/// its last character is taken for the closing one.
pub open spec fn bracket_interior(rest: Seq<char>) -> Seq<char> {
    if rest.len() > 0 {
        rest.drop_last()
    } else {
        rest
    }
}

/// A tokenisable string over a string slice.
///
/// Tokens are plain runs of characters between delimiters, quoted blocks,
/// and bracketed blocks, which may nest. Its view is the text that has not
/// been consumed yet.
#[allow(non_snake_case)]
#[derive(Debug)]
pub struct TStr<'a> {
    /// The text that has not been consumed yet.
    pub theStr: &'a str,
    /// Bytes trimmed from the front, or -1 before the first trim.
    pub trimmedPrefixCnt: isize,
    /// Bytes trimmed from the end, or -1 before the first trim.
    pub trimmedSuffixCnt: isize,
    /// The escape sequences that are expanded.
    pub escSeqMap: EscSeqMap,
    pub flags: Flags,
    pub delims: Delimiters,
}

impl<'a> View for TStr<'a> {
    type V = Seq<char>;

    open spec fn view(&self) -> Seq<char> {
        self.theStr@
    }
}

impl<'a> Clone for TStr<'a> {
    fn clone(&self) -> (r: Self)
        ensures
            r@ == self@,
            r.same_setup(self),
            r.same_counts(self),
    {
        TStr {
            theStr: self.theStr,
            trimmedPrefixCnt: self.trimmedPrefixCnt,
            trimmedSuffixCnt: self.trimmedSuffixCnt,
            escSeqMap: self.escSeqMap.clone(),
            flags: self.flags,
            delims: self.delims,
        }
    }
}

fn clip_isize(n: usize) -> (r: isize)
    ensures
        r == clip(n as int),
{
    if n > isize::MAX as usize {
        isize::MAX
    } else {
        n as isize
    }
}

/// Creation and setup.
impl<'a> TStr<'a> {
    /// The stored count of bytes trimmed from the front.
    pub open spec fn prefix_cnt(&self) -> isize {
        self.trimmedPrefixCnt
    }

    /// The stored count of bytes trimmed from the end.
    pub open spec fn suffix_cnt(&self) -> isize {
        self.trimmedSuffixCnt
    }

    /// Both have the same delimiters, flags and escape sequences.
    pub open spec fn same_setup(&self, other: &TStr) -> bool {
        &&& self.delims == other.delims
        &&& self.flags == other.flags
        &&& self.escSeqMap@ == other.escSeqMap@
    }

    /// Both have the same counts of trimmed bytes.
    pub open spec fn same_counts(&self, other: &TStr) -> bool {
        &&& self.prefix_cnt() == other.prefix_cnt()
        &&& self.suffix_cnt() == other.suffix_cnt()
    }

    /// Holds `text` untouched, with nothing counted yet.
    pub open spec fn holds_raw(&self, text: Seq<char>) -> bool {
        &&& self@ == text
        &&& self.prefix_cnt() == -1
        &&& self.suffix_cnt() == -1
    }

    /// Holds `text` trimmed, with the trimmed bytes counted.
    pub open spec fn holds_trimmed(&self, text: Seq<char>) -> bool {
        &&& self@ == trim(text)
        &&& self.prefix_cnt() == trimmed_prefix(text)
        &&& self.suffix_cnt() == trimmed_suffix(text)
    }

    /// The configuration of a scan of this string with the given delimiter
    /// and trimming.
    pub open spec fn cfg(&self, dlimdef: char, btrim: bool) -> ScanConfig {
        scan_config(self.flags, self.escSeqMap@, dlimdef, btrim)
    }

    /// A tokenisable string over `s` with the given delimiters, escape
    /// sequences and flags; trimmed at once if `btrim` is set.
    pub fn from_str_ex(
        s: &'a str,
        btrim: bool,
        delims: Delimiters,
        escseqs: EscSeqMap,
        flags: Flags,
    ) -> (t: TStr<'a>)
        ensures
            t.delims == delims,
            t.flags == flags,
            t.escSeqMap@ == escseqs@,
            btrim ==> t.holds_trimmed(s@),
            !btrim ==> t.holds_raw(s@),
    {
        let mut tstr = TStr {
            theStr: s,
            trimmedPrefixCnt: -1,
            trimmedSuffixCnt: -1,
            escSeqMap: escseqs,
            flags,
            delims,
        };
        if btrim {
            tstr.trim();
        }
        tstr
    }

    /// A tokenisable string over `s` with the default delimiters, escape
    /// sequences and flags; trimmed at once if `btrim` is set.
    pub fn from_str(s: &'a str, btrim: bool) -> (t: TStr<'a>)
        ensures
            t.delims == Delimiters::spec_default(),
            t.flags == Flags::spec_default(),
            t.escSeqMap@ == default_escapes(),
            btrim ==> t.holds_trimmed(s@),
            !btrim ==> t.holds_raw(s@),
    {
        Self::from_str_ex(
            s,
            btrim,
            Delimiters::default(),
            TStrX::escseqs_default(),
            Flags::default(),
        )
    }

    /// Points this instance at a new line, keeping its configuration.
    pub fn set_str(&mut self, s: &'a str, btrim: bool)
        ensures
            final(self).same_setup(old(self)),
            btrim ==> final(self).holds_trimmed(s@),
            !btrim ==> final(self).holds_raw(s@),
    {
        self.theStr = s;
        self.trimmedPrefixCnt = -1;
        self.trimmedSuffixCnt = -1;
        if btrim {
            self.trim();
        }
    }
}

/// The string slice and its trimming.
impl<'a> TStr<'a> {
    /// The text that is left.
    pub fn the_str(&self) -> (r: &str)
        ensures
            r@ == self@,
    {
        self.theStr
    }

    /// Bytes trimmed from the front by the last trim, -1 if none happened.
    pub fn trimmed_prefix_cnt_raw(&self) -> (r: isize)
        ensures
            r == self.prefix_cnt(),
    {
        self.trimmedPrefixCnt
    }

    /// Bytes trimmed from the end by the last trim, -1 if none happened.
    pub fn trimmed_suffix_cnt_raw(&self) -> (r: isize)
        ensures
            r == self.suffix_cnt(),
    {
        self.trimmedSuffixCnt
    }

    /// Removes whitespace at both ends of the text and records how many
    /// bytes went at each end.
    pub fn trim(&mut self)
        ensures
            final(self).same_setup(old(self)),
            final(self).holds_trimmed(old(self)@),
            final(self).prefix_cnt() >= 0,
            final(self).suffix_cnt() >= 0,
    {
        let olen = byte_len(self.theStr);
        let nstr = trim_start_str(self.theStr);
        let nlen = byte_len(nstr);
        proof {
            let s = self@;
            let k = leading_ws(s) as int;
            lemma_leading_ws(s);
            assert(s == s.take(k) + trim_start(s));
            lemma_encode_concat(s.take(k), trim_start(s));
            let t = trim_start(s);
            let m = t.len() - trailing_ws(t);
            lemma_trailing_ws(t);
            assert(t == trim(s) + t.skip(m));
            lemma_encode_concat(trim(s), t.skip(m));
        }
        self.trimmedPrefixCnt = clip_isize(olen - nlen);
        self.theStr = trim_end_str(nstr);
        let flen = byte_len(self.theStr);
        self.trimmedSuffixCnt = clip_isize(nlen - flen);
    }

    /// The number of bytes trimmed from the front. Trims first if that has
    /// not happened yet.
    pub fn trimmed_prefix_cnt(&mut self) -> (r: usize)
        ensures
            final(self).same_setup(old(self)),
            old(self).prefix_cnt() < 0 ==> final(self).holds_trimmed(old(self)@),
            old(self).prefix_cnt() >= 0 ==> final(self)@ == old(self)@ && final(self).same_counts(
                old(self),
            ),
            r == final(self).prefix_cnt(),
    {
        if self.trimmedPrefixCnt < 0 {
            self.trim();
        }
        self.trimmedPrefixCnt as usize
    }

    /// The number of bytes trimmed from the end. Trims first if that has
    /// not happened yet.
    pub fn trimmed_suffix_cnt(&mut self) -> (r: usize)
        ensures
            final(self).same_setup(old(self)),
            old(self).suffix_cnt() < 0 ==> final(self).holds_trimmed(old(self)@),
            old(self).suffix_cnt() >= 0 ==> final(self)@ == old(self)@ && final(self).same_counts(
                old(self),
            ),
            r == final(self).suffix_cnt(),
    {
        if self.trimmedSuffixCnt < 0 {
            self.trim();
        }
        self.trimmedSuffixCnt as usize
    }
}

/// `r` is what the extraction `scan` hands to the caller.
pub open spec fn is_token_result(
    scan: Scanned,
    r: Result<(String, TokenType), (TokenError, String)>,
) -> bool {
    match scan {
        Scanned::Token { tok, kind, .. } => r matches Ok(p) && p.0@ == tok && p.1 == kind,
        Scanned::Failed { err, partial, .. } => r matches Err(e) && e.0 == err && e.1@ == partial,
    }
}

/// `r` is what the extraction `scan` hands to a caller that does not ask for
/// the kind of token.
pub open spec fn is_text_result(scan: Scanned, r: Result<String, (TokenError, String)>) -> bool {
    match scan {
        Scanned::Token { tok, .. } => r matches Ok(t) && t@ == tok,
        Scanned::Failed { err, partial, .. } => r matches Err(e) && e.0 == err && e.1@ == partial,
    }
}

/// `r` is what an operation with outcome `toks` hands to the caller.
pub open spec fn is_tokens_result(
    toks: Tokens,
    r: Result<Vec<String>, (TokenError, String)>,
) -> bool {
    match toks.result {
        Ok(ts) => r matches Ok(v) && strings_view(v@) == ts,
        Err(f) => r matches Err(e) && e.0 == f.0 && e.1@ == f.1,
    }
}

/// `toks` with the tokens `pre` put in front of its tokens.
pub open spec fn prepend(pre: Seq<Seq<char>>, toks: Tokens) -> Tokens {
    match toks.result {
        Ok(ts) => Tokens { result: Ok(pre + ts), rest: toks.rest },
        Err(_) => toks,
    }
}

/// Tokenisation.
impl<'a> TStr<'a> {
    /// Drops the text before byte offset `nexttokpos`, which has to be the
    /// offset of a character; everything is dropped if it is at or past the
    /// end.
    pub fn drop_adjust(&mut self, nexttokpos: usize)
        requires
            nexttokpos < utf8_len(old(self)@) ==> is_char_boundary(
                encode_utf8(old(self)@),
                nexttokpos as int,
            ),
        ensures
            final(self).same_setup(old(self)),
            final(self).same_counts(old(self)),
            nexttokpos >= utf8_len(old(self)@) ==> final(self)@.len() == 0,
            nexttokpos < utf8_len(old(self)@) ==> final(self)@ == decode_utf8(
                encode_utf8(old(self)@).subrange(nexttokpos as int, utf8_len(old(self)@) as int),
            ),
            forall|k: int|
                0 <= k <= old(self)@.len() && byte_offset(old(self)@, k) == nexttokpos
                    ==> final(self)@ == old(self)@.skip(k),
    {
        self.theStr = skip_bytes(self.theStr, nexttokpos);
    }

    /// Extracts the next token and says of what kind it is.
    ///
    /// The text is consumed up to the start of the following token: past the
    /// token and the delimiter behind it. A quoted or bracketed block is one
    /// token whatever delimiters it holds. On malformed input the error is
    /// returned with the token text collected so far, and the text is
    /// consumed up to and including the offending character, so that the
    /// next call makes progress.
    pub fn nexttok_ex(&mut self, dlimdef: char, btrim: bool) -> (r: Result<
        (String, TokenType),
        (TokenError, String),
    >)
        ensures
            final(self).same_setup(old(self)),
            final(self).same_counts(old(self)),
            final(self)@ == old(self)@.skip(
                next_token(old(self).delims, old(self).cfg(dlimdef, btrim), old(self)@).consumed(),
            ),
            is_token_result(
                next_token(old(self).delims, old(self).cfg(dlimdef, btrim), old(self)@),
                r,
            ),
            old(self)@.len() > 0 ==> final(self)@.len() < old(self)@.len(),
    {
        let mut flags = self.flags;
        flags.trim = btrim;
        let mut ctxt = Ctxt::new(self.theStr, dlimdef, self.escSeqMap.clone(), flags);
        let vchartypes = VCharTypes::from_delimiters(&self.delims, Some(dlimdef));
        let total = byte_len(self.theStr);
        let n = ctxt.vchars.len();
        let ghost text = self@;
        let ghost d = self.delims;
        let ghost cfg = self.cfg(dlimdef, btrim);
        let ghost whole = scan_from(d, cfg, text, 0, TokState::initial());
        proof {
            lemma_next_token_progress(d, cfg, text);
        }
        let mut bdone = false;
        let mut i: usize = 0;
        while i < n && !bdone
            invariant
                *self == *old(self),
                text == self@,
                d == self.delims,
                cfg == self.cfg(dlimdef, btrim),
                whole == scan_from(d, cfg, text, 0, TokState::initial()),
                i <= n,
                n == text.len(),
                ctxt.vchars@ == char_offsets(text),
                total == utf8_len(text),
                ctxt.config() == cfg,
                vchartypes.vct@ == standard_chain(d, dlimdef),
                ctxt.mphase matches Phase::BtwBracket(_, c) ==> 1 <= c <= i,
                !bdone ==> whole == scan_from(d, cfg, text, i as int, ctxt.state()),
                bdone ==> i < n && whole == (Scanned::Token {
                    tok: ctxt.tok@,
                    kind: ctxt.toktype,
                    rest: i as int,
                }) && ctxt.nextpos == byte_offset(text, i as int),
            decreases n - i, (if bdone { 0int } else { 1int }),
        {
            ctxt.seek(i);
            proof {
                lemma_byte_offset_mono(text, i as int, text.len() as int);
                lemma_done_needs_cleanup(d, cfg, ctxt.state(), text[i as int]);
            }
            match vchartypes.run_chain(&mut ctxt) {
                Err(e) => {
                    let nexti = i + 1;
                    let nexttokpos = if nexti < n {
                        ctxt.vchars[nexti].0
                    } else {
                        total
                    };
                    proof {
                        lemma_byte_offset_mono(text, nexti as int, text.len() as int);
                        lemma_byte_offset_boundary(text, nexti as int);
                    }
                    self.drop_adjust(nexttokpos);
                    return Err((e, ctxt.tok));
                },
                Ok(Action::DoneBreak) => {
                    bdone = true;
                },
                Ok(_) => {
                    i += 1;
                },
            }
        }
        if !bdone {
            ctxt.nextpos = total;
        }
        proof {
            let k = if bdone {
                i as int
            } else {
                n as int
            };
            lemma_byte_offset_mono(text, k, text.len() as int);
            lemma_byte_offset_boundary(text, k);
        }
        self.drop_adjust(ctxt.nextpos);
        // Spaces can be left at the end when the delimiter is not the space.
        if btrim && self.flags.trim_atend {
            let tok = trim_end_str(ctxt.tok.as_str()).to_owned();
            return Ok((tok, ctxt.toktype));
        }
        Ok((ctxt.tok, ctxt.toktype))
    }

    /// Extracts the next token; see `nexttok_ex`.
    pub fn nexttok(&mut self, dlimdef: char, btrim: bool) -> (r: Result<
        String,
        (TokenError, String),
    >)
        ensures
            final(self).same_setup(old(self)),
            final(self).same_counts(old(self)),
            final(self)@ == old(self)@.skip(
                next_token(old(self).delims, old(self).cfg(dlimdef, btrim), old(self)@).consumed(),
            ),
            is_text_result(
                next_token(old(self).delims, old(self).cfg(dlimdef, btrim), old(self)@),
                r,
            ),
            old(self)@.len() > 0 ==> final(self)@.len() < old(self)@.len(),
    {
        match self.nexttok_ex(dlimdef, btrim) {
            Err(e) => Err(e),
            Ok(got) => Ok(got.0),
        }
    }

    /// The length in bytes of the text that is left.
    pub fn remaining_len(&self) -> (n: usize)
        ensures
            n == utf8_len(self@),
            n == 0 <==> self@.len() == 0,
    {
        proof {
            lemma_utf8_len_zero(self@);
        }
        byte_len(self.theStr)
    }

    /// The length in bytes of the text that is left.
    pub fn len(&self) -> (n: usize)
        ensures
            n == utf8_len(self@),
            n == 0 <==> self@.len() == 0,
    {
        self.remaining_len()
    }

    /// All the tokens of the text, which is used up in the process.
    ///
    /// With `bcontinue_onerr` a malformed token is skipped and extraction
    /// goes on behind it; without, the first error ends the call and is
    /// returned, and the text behind the offending character is left.
    pub fn tokens_vec(&mut self, dlimdef: char, btrim: bool, bcontinue_onerr: bool) -> (r: Result<
        Vec<String>,
        (TokenError, String),
    >)
        ensures
            final(self).same_setup(old(self)),
            final(self).same_counts(old(self)),
            final(self)@ == all_tokens(
                old(self).delims,
                old(self).cfg(dlimdef, btrim),
                old(self)@,
                bcontinue_onerr,
            ).rest,
            is_tokens_result(
                all_tokens(
                    old(self).delims,
                    old(self).cfg(dlimdef, btrim),
                    old(self)@,
                    bcontinue_onerr,
                ),
                r,
            ),
    {
        let mut vtoks: Vec<String> = Vec::new();
        let ghost d = self.delims;
        let ghost cfg = self.cfg(dlimdef, btrim);
        let ghost whole = all_tokens(d, cfg, self@, bcontinue_onerr);
        assert(strings_view(vtoks@) + Seq::<Seq<char>>::empty() =~= strings_view(vtoks@));
        while self.remaining_len() > 0
            invariant
                self.same_setup(old(self)),
                self.same_counts(old(self)),
                d == self.delims,
                cfg == self.cfg(dlimdef, btrim),
                whole == all_tokens(
                    old(self).delims,
                    old(self).cfg(dlimdef, btrim),
                    old(self)@,
                    bcontinue_onerr,
                ),
                whole == prepend(
                    strings_view(vtoks@),
                    all_tokens(d, cfg, self@, bcontinue_onerr),
                ),
            decreases self@.len(),
        {
            let ghost before = self@;
            let ghost got = strings_view(vtoks@);
            match self.nexttok(dlimdef, btrim) {
                Err(e) => {
                    if !bcontinue_onerr {
                        return Err(e);
                    }
                },
                Ok(tok) => {
                    vtoks.push(tok);
                    proof {
                        let after = all_tokens(d, cfg, self@, bcontinue_onerr);
                        assert(strings_view(vtoks@) =~= got.push(tok@));
                        if let Ok(ts) = after.result {
                            assert(got + (seq![tok@] + ts) =~= got.push(tok@) + ts);
                        }
                    }
                },
            }
        }
        proof {
            assert(strings_view(vtoks@) + Seq::<Seq<char>>::empty() =~= strings_view(vtoks@));
        }
        Ok(vtoks)
    }
}

/// The number of tokens that `splitn` extracts before it hands out the rest.
pub open spec fn split_budget(reqcnt: usize) -> nat {
    if reqcnt > 0 {
        (reqcnt - 1) as nat
    } else {
        0
    }
}

/// Counterparts of the string operations of the same names.
impl<'a> TStr<'a> {
    /// The first token and, as a string of its own, the text behind it. A
    /// block at the start is one token, whatever delimiters it holds.
    pub fn split_once(&mut self, dlimdef: char) -> (r: Result<
        (String, String),
        (TokenError, String),
    >)
        ensures
            final(self).same_setup(old(self)),
            final(self).same_counts(old(self)),
            final(self)@ == old(self)@.skip(
                next_token(old(self).delims, old(self).cfg(dlimdef, true), old(self)@).consumed(),
            ),
            match next_token(old(self).delims, old(self).cfg(dlimdef, true), old(self)@) {
                Scanned::Token { tok, .. } => r matches Ok(p) && p.0@ == tok
                    && p.1@ == final(self)@,
                Scanned::Failed { err, partial, .. } => r matches Err(e) && e.0 == err && e.1@
                    == partial,
            },
    {
        match self.nexttok(dlimdef, true) {
            Err(e) => Err(e),
            Ok(tok) => Ok((tok, self.theStr.to_owned())),
        }
    }

    /// Up to `reqcnt` pieces: tokens, of which the last is whatever is left
    /// unsplit once `reqcnt - 1` tokens have been taken. The unsplit rest
    /// stays in this string.
    pub fn splitn(&mut self, reqcnt: usize, dlimdef: char) -> (r: Result<
        Vec<String>,
        (TokenError, String),
    >)
        ensures
            final(self).same_setup(old(self)),
            final(self).same_counts(old(self)),
            final(self)@ == split_n(
                old(self).delims,
                old(self).cfg(dlimdef, true),
                old(self)@,
                split_budget(reqcnt),
            ).rest,
            is_tokens_result(
                split_n(
                    old(self).delims,
                    old(self).cfg(dlimdef, true),
                    old(self)@,
                    split_budget(reqcnt),
                ),
                r,
            ),
    {
        let mut vres: Vec<String> = Vec::new();
        let mut left: usize = if reqcnt > 0 {
            reqcnt - 1
        } else {
            0
        };
        let ghost d = self.delims;
        let ghost cfg = self.cfg(dlimdef, true);
        let ghost whole = split_n(d, cfg, self@, split_budget(reqcnt));
        assert(strings_view(vres@) =~= Seq::<Seq<char>>::empty());
        proof {
            let first = split_n(d, cfg, self@, left as nat);
            if let Ok(ts) = first.result {
                assert(Seq::<Seq<char>>::empty() + ts =~= ts);
            }
        }
        while left > 0
            invariant
                self.same_setup(old(self)),
                self.same_counts(old(self)),
                d == self.delims,
                cfg == self.cfg(dlimdef, true),
                whole == split_n(
                    old(self).delims,
                    old(self).cfg(dlimdef, true),
                    old(self)@,
                    split_budget(reqcnt),
                ),
                whole == prepend(strings_view(vres@), split_n(d, cfg, self@, left as nat)),
            decreases left,
        {
            let ghost got = strings_view(vres@);
            match self.nexttok(dlimdef, true) {
                Err(e) => {
                    return Err(e);
                },
                Ok(tok) => {
                    vres.push(tok);
                    proof {
                        assert(strings_view(vres@) =~= got.push(tok@));
                        assert(got + seq![tok@] =~= got.push(tok@));
                        let after = split_n(d, cfg, self@, (left - 1) as nat);
                        if let Ok(ts) = after.result {
                            assert(got + (seq![tok@] + ts) =~= got.push(tok@) + ts);
                        }
                    }
                    if self.remaining_len() == 0 {
                        return Ok(vres);
                    }
                },
            }
            left -= 1;
        }
        if self.remaining_len() > 0 {
            let ghost got = strings_view(vres@);
            let rest = self.theStr.to_owned();
            vres.push(rest);
            proof {
                assert(strings_view(vres@) =~= got + seq![self@]);
            }
        } else {
            proof {
                assert(strings_view(vres@) + Seq::<Seq<char>>::empty() =~= strings_view(vres@));
            }
        }
        Ok(vres)
    }

    /// The first character of the text, if there is one.
    pub fn char_first(&self) -> (r: Option<char>)
        ensures
            r == (if self@.len() > 0 {
                Some(self@[0])
            } else {
                None
            }),
    {
        self.char_nth(0)
    }

    /// The last character of the text, if there is one.
    pub fn char_last(&self) -> (r: Option<char>)
        ensures
            r == (if self@.len() > 0 {
                Some(self@.last())
            } else {
                None
            }),
    {
        let n = self.theStr.unicode_len();
        if n > 0 {
            Some(self.theStr.get_char(n - 1))
        } else {
            None
        }
    }

    /// The character at index `pos`, counted in characters, if there is one.
    pub fn char_nth(&self, pos: usize) -> (r: Option<char>)
        ensures
            r == (if pos < self@.len() {
                Some(self@[pos as int])
            } else {
                None
            }),
    {
        if pos < self.theStr.unicode_len() {
            Some(self.theStr.get_char(pos))
        } else {
            None
        }
    }
}

/// Peeling.
impl<'a> TStr<'a> {
    /// Takes the text for a bracketed block with an optional prefix, as in
    /// `name(inner)`: after trimming, returns what stands before the first
    /// `bracket_begin` and keeps what stands between it and the last
    /// character, which is taken for the closing bracket without a look at
    /// it. If nothing follows the opening bracket, nothing is kept.
    ///
    /// Fails with `BracketNotFound` if `bracket_begin` does not occur; the
    /// error names that character, at position 0, and the text stays trimmed.
    pub fn peel_bracket(&mut self, bracket_begin: char) -> (r: Result<String, TokenError>)
        ensures
            final(self).same_setup(old(self)),
            final(self).prefix_cnt() == trimmed_prefix(old(self)@),
            final(self).suffix_cnt() == trimmed_suffix(old(self)@),
            ({
                let t = trim(old(self)@);
                let k = position_of(t, bracket_begin);
                if k < t.len() {
                    &&& r matches Ok(prefix)
                    &&& prefix@ == t.take(k)
                    &&& final(self)@ == bracket_interior(t.skip(k + 1))
                } else {
                    &&& r == Err::<String, TokenError>(
                        TokenError { kind: ErrorKind::BracketNotFound, ch: bracket_begin, pos: 0 },
                    )
                    &&& final(self)@ == t
                }
            }),
    {
        self.trim();
        let v = chars_of(self.theStr);
        let n = v.len();
        let mut k: usize = 0;
        while k < n && v[k] != bracket_begin
            invariant
                k <= n,
                n == v.len(),
                forall|j: int| 0 <= j < k ==> #[trigger] v@[j] != bracket_begin,
            decreases n - k,
        {
            k += 1;
        }
        proof {
            lemma_position_of_is(self@, bracket_begin, k as int);
        }
        if k == n {
            return Err(TokenError { kind: ErrorKind::BracketNotFound, ch: bracket_begin, pos: 0 });
        }
        let prefix = self.theStr.substring_char(0, k).to_owned();
        let end = if k + 1 < n {
            n - 1
        } else {
            k + 1
        };
        proof {
            let rest = self@.skip(k + 1);
            assert(self@.subrange(k + 1, end as int) =~= bracket_interior(rest));
        }
        self.theStr = self.theStr.substring_char(k + 1, end);
        Ok(prefix)
    }

    /// Takes the text for a quoted string: after trimming, if it has at
    /// least two characters and begins and ends with `stringdelim`, keeps
    /// what stands between those two.
    ///
    /// Fails with `StringNotFullyEnclosed` otherwise; the error names
    /// `stringdelim`, at position 0, and the text stays trimmed.
    pub fn peel_string(&mut self, stringdelim: char) -> (r: Result<(), TokenError>)
        ensures
            final(self).same_setup(old(self)),
            final(self).prefix_cnt() == trimmed_prefix(old(self)@),
            final(self).suffix_cnt() == trimmed_suffix(old(self)@),
            ({
                let t = trim(old(self)@);
                if t.len() >= 2 && t[0] == stringdelim && t.last() == stringdelim {
                    &&& r == Ok::<(), TokenError>(())
                    &&& final(self)@ == t.subrange(1, t.len() - 1)
                } else {
                    &&& r == Err::<(), TokenError>(
                        TokenError {
                            kind: ErrorKind::StringNotFullyEnclosed,
                            ch: stringdelim,
                            pos: 0,
                        },
                    )
                    &&& final(self)@ == t
                }
            }),
    {
        self.trim();
        let n = self.theStr.unicode_len();
        if n >= 2 && self.theStr.get_char(0) == stringdelim && self.theStr.get_char(n - 1)
            == stringdelim {
            self.theStr = self.theStr.substring_char(1, n - 1);
            Ok(())
        } else {
            Err(TokenError { kind: ErrorKind::StringNotFullyEnclosed, ch: stringdelim, pos: 0 })
        }
    }
}

/// A configuration to be shared: every `TStr` made by `from_str` gets a copy
/// of its delimiters, escape sequences and flags.
#[derive(Debug)]
pub struct TStrX {
    pub delims: Delimiters,
    pub escseqs: EscSeqMap,
    pub flags: Flags,
}

impl TStrX {
    /// The escape sequences of this configuration.
    pub open spec fn escapes(&self) -> Map<char, char> {
        self.escseqs@
    }

    /// A configuration with the given characteristics.
    pub fn new_ex(delims: Delimiters, escseqs: EscSeqMap, flags: Flags) -> (x: TStrX)
        ensures
            x.delims == delims,
            x.flags == flags,
            x.escapes() == escseqs@,
    {
        TStrX { delims, escseqs, flags }
    }

    /// The default configuration.
    pub fn new() -> (x: TStrX)
        ensures
            x.delims == Delimiters::spec_default(),
            x.flags == Flags::spec_default(),
            x.escapes() == default_escapes(),
    {
        Self::new_ex(Delimiters::default(), Self::escseqs_default(), Flags::default())
    }

    /// A tokenisable string over `thestr` that takes over this configuration.
    pub fn from_str<'a>(&self, thestr: &'a str, btrim: bool) -> (t: TStr<'a>)
        ensures
            t.delims == self.delims,
            t.flags == self.flags,
            t.escSeqMap@ == self.escapes(),
            btrim ==> t.holds_trimmed(thestr@),
            !btrim ==> t.holds_raw(thestr@),
    {
        TStr::from_str_ex(thestr, btrim, self.delims, self.escseqs.clone(), self.flags)
    }

    /// The predefined escape sequences.
    pub fn escseqs_default() -> (m: EscSeqMap)
        ensures
            m@ == default_escapes(),
    {
        let delims = Delimiters::default();
        let mut escseqs = EscSeqMap::new();
        escseqs.set('n', '\n');
        escseqs.set('t', '\t');
        escseqs.set('r', '\r');
        escseqs.set(delims.escseq, delims.escseq);
        escseqs.set(delims.space, delims.space);
        escseqs.set(delims.string, delims.string);
        escseqs.set(delims.bracket.0, delims.bracket.0);
        escseqs.set(delims.bracket.1, delims.bracket.1);
        escseqs
    }

    /// Forgets every escape sequence.
    pub fn escseqs_clear(&mut self)
        ensures
            final(self).escapes() == Map::<char, char>::empty(),
            final(self).delims == old(self).delims,
            final(self).flags == old(self).flags,
    {
        self.escseqs.clear();
    }

    /// Makes `find`, written after the escape marker, stand for `replace`.
    pub fn escseqs_set(&mut self, find: char, replace: char)
        ensures
            final(self).escapes() == old(self).escapes().insert(find, replace),
            final(self).delims == old(self).delims,
            final(self).flags == old(self).flags,
    {
        self.escseqs.set(find, replace);
    }

    /// Lets the escape marker, the space, the quote and the two characters of
    /// the first bracket family, as they are configured now, each be escaped
    /// to stand for itself.
    pub fn escseqs_update(&mut self)
        ensures
            final(self).escapes() == old(self).escapes().insert(
                old(self).delims.escseq,
                old(self).delims.escseq,
            ).insert(old(self).delims.space, old(self).delims.space).insert(
                old(self).delims.string,
                old(self).delims.string,
            ).insert(old(self).delims.bracket.0, old(self).delims.bracket.0).insert(
                old(self).delims.bracket.1,
                old(self).delims.bracket.1,
            ),
            final(self).delims == old(self).delims,
            final(self).flags == old(self).flags,
    {
        self.escseqs.set(self.delims.escseq, self.delims.escseq);
        self.escseqs.set(self.delims.space, self.delims.space);
        self.escseqs.set(self.delims.string, self.delims.string);
        self.escseqs.set(self.delims.bracket.0, self.delims.bracket.0);
        self.escseqs.set(self.delims.bracket.1, self.delims.bracket.1);
    }
}

} // verus!
