//! A helper for tidying a line before it is tokenised.

use crate::text::{char_is_whitespace, chars_of};
use vstd::prelude::*;

verus! {

/// The marker that, inside quotes, takes the special meaning from the
/// character after it.
pub const ESCAPE_MARKER: char = '\\';

/// The output written so far and what the next character will meet.
pub struct Squeezed {
    pub out: Seq<char>,
    /// The previous character was an escape marker inside quotes.
    pub besc: bool,
    /// A quote is open.
    pub binquotes: bool,
    /// The previous character outside quotes was whitespace.
    pub bwhitespace: bool,
}

/// What one more character does. Inside quotes whitespace is kept as it is;
/// outside, the first character of a run of whitespace becomes one space and
/// the others vanish. Every other character is kept; an unescaped quote
/// opens or closes, and the escape marker counts only inside quotes.
pub open spec fn squeeze_step(st: Squeezed, c: char, quote: char) -> Squeezed {
    if char_is_whitespace(c) {
        if st.binquotes {
            Squeezed { out: st.out.push(c), ..st }
        } else if st.bwhitespace {
            st
        } else {
            Squeezed { out: st.out.push(' '), bwhitespace: true, ..st }
        }
    } else {
        let out = st.out.push(c);
        if st.besc {
            Squeezed { out, besc: false, bwhitespace: false, ..st }
        } else if c == quote {
            Squeezed { out, binquotes: !st.binquotes, bwhitespace: false, ..st }
        } else if c == ESCAPE_MARKER {
            Squeezed { out, besc: st.binquotes, bwhitespace: false, ..st }
        } else {
            Squeezed { out, bwhitespace: false, ..st }
        }
    }
}

/// The result of feeding the characters of `s` one after the other.
pub open spec fn squeeze(s: Seq<char>, quote: char) -> Squeezed
    decreases s.len(),
{
    if s.len() == 0 {
        Squeezed { out: Seq::empty(), besc: false, binquotes: false, bwhitespace: false }
    } else {
        squeeze_step(squeeze(s.drop_last(), quote), s.last(), quote)
    }
}

/// A copy of `ins` in which every run of whitespace outside quoted text is
/// one space. Text between two `quote` characters is copied as it is; there
/// a backslash makes the character after it an ordinary one, so that an
/// escaped quote does not close the quoted text.
pub fn remove_extra_whitespaces(ins: &str, quote: char) -> (outs: String)
    ensures
        outs@ == squeeze(ins@, quote).out,
{
    let mut outs = String::new();
    let mut besc = false;
    let mut binquotes = false;
    let mut bwhitespace = false;
    let incv = chars_of(ins);
    let mut i: usize = 0;
    while i < incv.len()
        invariant
            i <= incv.len(),
            incv@ == ins@,
            squeeze(ins@.take(i as int), quote) == (Squeezed {
                out: outs@,
                besc,
                binquotes,
                bwhitespace,
            }),
        decreases incv.len() - i,
    {
        let c = incv[i];
        proof {
            assert(ins@.take(i + 1).drop_last() == ins@.take(i as int));
        }
        i += 1;
        if c.is_whitespace() {
            if binquotes {
                outs.push(c);
            } else if !bwhitespace {
                bwhitespace = true;
                outs.push(' ');
            }
            continue ;
        }
        bwhitespace = false;
        outs.push(c);
        if besc {
            besc = false;
            continue ;
        }
        if c == quote {
            binquotes = !binquotes;
            continue ;
        }
        if c == ESCAPE_MARKER {
            if binquotes {
                besc = true;
            }
            continue ;
        }
    }
    proof {
        assert(ins@.take(i as int) == ins@);
    }
    outs
}

} // verus!
