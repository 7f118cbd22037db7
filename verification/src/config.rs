//! Plain configuration values: the flags that steer tokenisation, the set of
//! delimiter characters, and the tag attached to every token.

use vstd::prelude::*;

verus! {

/// Switches that control how a line is cut into tokens.
#[derive(Debug, Clone, Copy)]
pub struct Flags {
    /// Drop the space character around a token.
    pub trim: bool,
    /// Replace an escape sequence by the character it stands for; when off,
    /// the marker and the character after it are kept as they are.
    pub escapesequences_expand: bool,
    /// A closed quoted or bracketed block must be followed by the active
    /// delimiter, the space character or the end of the text.
    pub blocktok_dlimuser_endreqd: bool,
    /// Keep the quote characters of a quoted block in the token.
    pub stringquotes_retain: bool,
    /// A quoted segment may be one part of a larger token.
    pub string_canbe_asubpart: bool,
    /// A token may begin directly with a bracket-begin character.
    pub mainbracket_beginstandalone: bool,
    /// A bracketed block may follow plain text within one token.
    pub mainbracket_beginprefixed: bool,
    /// After a token is cut, strip whitespace at both of its ends once more;
    /// this matters when the delimiter is not the space character.
    pub trim_atend: bool,
}

impl Flags {
    /// Flags with the given characteristics; the final trim pass is always on.
    pub fn new(
        trim: bool,
        escapesequences: bool,
        blocktokdelimited: bool,
        retainquotes: bool,
        stringasubpart: bool,
        bracketstandalone: bool,
        bracketprefixed: bool,
    ) -> (f: Flags)
        ensures
            f == (Flags {
                trim,
                escapesequences_expand: escapesequences,
                blocktok_dlimuser_endreqd: blocktokdelimited,
                stringquotes_retain: retainquotes,
                string_canbe_asubpart: stringasubpart,
                mainbracket_beginstandalone: bracketstandalone,
                mainbracket_beginprefixed: bracketprefixed,
                trim_atend: true,
            }),
    {
        Flags {
            trim,
            escapesequences_expand: escapesequences,
            blocktok_dlimuser_endreqd: blocktokdelimited,
            stringquotes_retain: retainquotes,
            string_canbe_asubpart: stringasubpart,
            mainbracket_beginstandalone: bracketstandalone,
            mainbracket_beginprefixed: bracketprefixed,
            trim_atend: true,
        }
    }

    /// The flags a fresh tokeniser starts with.
    pub open spec fn spec_default() -> Flags {
        Flags {
            trim: true,
            escapesequences_expand: true,
            blocktok_dlimuser_endreqd: true,
            stringquotes_retain: true,
            string_canbe_asubpart: false,
            mainbracket_beginstandalone: true,
            mainbracket_beginprefixed: true,
            trim_atend: true,
        }
    }

    /// The default settings: everything on except quoted sub-parts.
    pub fn default() -> (f: Flags)
        ensures
            f == Flags::spec_default(),
    {
        Flags {
            trim: true,
            escapesequences_expand: true,
            blocktok_dlimuser_endreqd: true,
            stringquotes_retain: true,
            string_canbe_asubpart: false,
            mainbracket_beginprefixed: true,
            mainbracket_beginstandalone: true,
            trim_atend: true,
        }
    }

    /// These flags with `trim` replaced.
    pub open spec fn with_trim(self, trim: bool) -> Flags {
        Flags { trim, ..self }
    }
}

/// The characters that structure a line.
#[derive(Debug, Clone, Copy)]
pub struct Delimiters {
    /// Marks an escape sequence.
    pub escseq: char,
    /// The space character: always a candidate for trimming, and a delimiter
    /// when the caller asks for it.
    pub space: char,
    /// Opens and closes a quoted block.
    pub string: char,
    /// The begin and end characters of a bracketed block.
    pub bracket: (char, char),
    /// An optional second bracket family.
    pub obracket: Option<(char, char)>,
}

impl Delimiters {
    pub open spec fn spec_default() -> Delimiters {
        Delimiters { escseq: '\\', space: ' ', string: '"', bracket: ('(', ')'), obracket: None }
    }

    /// Backslash, space, double quote and round brackets; no second bracket family.
    pub fn default() -> (d: Delimiters)
        ensures
            d == Delimiters::spec_default(),
    {
        Delimiters { escseq: '\\', space: ' ', string: '"', bracket: ('(', ')'), obracket: None }
    }

    /// `c` is one of the configured bracket characters.
    pub open spec fn is_bracket_char(self, c: char) -> bool {
        ||| c == self.bracket.0
        ||| c == self.bracket.1
        ||| (self.obracket matches Some(o) && (c == o.0 || c == o.1))
    }

    /// `c` has a structural meaning: escape marker, space, quote or bracket.
    pub open spec fn is_special(self, c: char) -> bool {
        c == self.escseq || c == self.space || c == self.string || self.is_bracket_char(c)
    }

    /// A usable configuration: within each bracket pair begin differs from
    /// end, and the escape marker, the space and the quote differ from each
    /// other and from every bracket character.
    pub open spec fn valid(self) -> bool {
        &&& self.bracket.0 != self.bracket.1
        &&& (self.obracket matches Some(o) ==> o.0 != o.1)
        &&& self.escseq != self.space
        &&& self.escseq != self.string
        &&& self.space != self.string
        &&& !self.is_bracket_char(self.escseq)
        &&& !self.is_bracket_char(self.space)
        &&& !self.is_bracket_char(self.string)
    }

    fn has_bracket_char(&self, c: char) -> (b: bool)
        ensures
            b == self.is_bracket_char(c),
    {
        if c == self.bracket.0 || c == self.bracket.1 {
            return true;
        }
        match self.obracket {
            Some(o) => c == o.0 || c == o.1,
            None => false,
        }
    }

    /// Checks the configuration; the tokeniser itself accepts any, and on a
    /// clash the first matching role in the order escape, delimiter, space,
    /// quote, bracket wins.
    pub fn is_valid(&self) -> (b: bool)
        ensures
            b == self.valid(),
    {
        let pairs_ok = self.bracket.0 != self.bracket.1 && match self.obracket {
            Some(o) => o.0 != o.1,
            None => true,
        };
        pairs_ok && self.escseq != self.space && self.escseq != self.string && self.space
            != self.string && !self.has_bracket_char(self.escseq) && !self.has_bracket_char(
            self.space,
        ) && !self.has_bracket_char(self.string)
    }
}

/// What kind of token a scan produced.
#[derive(Debug, Clone, Copy, PartialEq, Eq, Structural)]
pub enum TokenType {
    /// Nothing was recognised, as for an empty field between two delimiters.
    Unknown,
    /// A plain run of characters.
    Normal,
    /// A quoted block.
    String,
    /// A bracketed block that begins the token.
    BracketStandalone,
    /// A bracketed block that follows some plain text.
    BracketPrefixed,
}

} // verus!
