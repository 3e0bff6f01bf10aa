//! Character classes of the lexical grammar.
//!
//! Whitespace, letters and alphanumeric characters are classified by the
//! standard library, whose answers this module takes on trust; everything
//! else is decided here.

use vstd::prelude::*;

verus! {

/// The characters that carry Unicode's `White_Space` property.
pub open spec fn is_white_space(c: char) -> bool {
    ||| '\u{0009}' <= c <= '\u{000D}'
    ||| c == '\u{0020}'
    ||| c == '\u{0085}'
    ||| c == '\u{00A0}'
    ||| c == '\u{1680}'
    ||| '\u{2000}' <= c <= '\u{200A}'
    ||| c == '\u{2028}'
    ||| c == '\u{2029}'
    ||| c == '\u{202F}'
    ||| c == '\u{205F}'
    ||| c == '\u{3000}'
}

/// What `char::is_alphabetic` answers for `c`.
pub uninterp spec fn unicode_alphabetic(c: char) -> bool;

/// What `char::is_alphanumeric` answers for `c`.
pub uninterp spec fn unicode_alphanumeric(c: char) -> bool;

/// `char::is_whitespace` tells whether a character has the `White_Space`
/// property. The property is a fixed list of 25 code points, which
/// [`is_white_space`] writes out. Trusted, not proved.
pub assume_specification[ char::is_whitespace ](c: char) -> (b: bool)
    ensures
        b == is_white_space(c),
;

/// `char::is_alphabetic` tells whether a character has Unicode's `Alphabetic`
/// property. The property spans thousands of code points, so its answer is
/// only given a name. Trusted, not proved.
pub assume_specification[ char::is_alphabetic ](c: char) -> (b: bool)
    ensures
        b == unicode_alphabetic(c),
;

/// `char::is_alphanumeric` tells whether a character is alphabetic or
/// numeric in Unicode's sense. Its answer is only given a name, together with
/// the one fact that every alphabetic character is alphanumeric. Trusted, not
/// proved.
pub assume_specification[ char::is_alphanumeric ](c: char) -> (b: bool)
    ensures
        b == unicode_alphanumeric(c),
        unicode_alphabetic(c) ==> b,
;

/// An ASCII decimal digit.
pub open spec fn is_digit(c: char) -> bool {
    '0' <= c <= '9'
}

/// A character that may begin an identifier or a keyword.
pub open spec fn is_identifier_start(c: char) -> bool {
    unicode_alphabetic(c)
}

/// A character that may continue an identifier or a keyword: a letter, any
/// other alphanumeric character, or an underscore.
pub open spec fn is_identifier_part(c: char) -> bool {
    unicode_alphabetic(c) || unicode_alphanumeric(c) || c == '_'
}

/// The sets of characters of which the grammar takes maximal runs.
#[derive(Clone, Copy, Debug, PartialEq, Eq)]
pub enum CharClass {
    /// Whitespace between tokens.
    Space,
    /// The digits of a number literal.
    Digit,
    /// The characters of an identifier or a keyword.
    IdentifierPart,
    /// Everything up to the end of a line: the text of a comment.
    CommentText,
    /// Everything up to a double quote: the text of a string literal.
    StringText,
}

impl CharClass {
    /// Whether `c` belongs to the class.
    pub open spec fn matches(self, c: char) -> bool {
        match self {
            CharClass::Space => is_white_space(c),
            CharClass::Digit => is_digit(c),
            CharClass::IdentifierPart => is_identifier_part(c),
            CharClass::CommentText => c != '\n',
            CharClass::StringText => c != '"',
        }
    }

    /// Decides whether `c` belongs to the class.
    pub fn contains(self, c: char) -> (b: bool)
        ensures
            b == self.matches(c),
    {
        match self {
            CharClass::Space => c.is_whitespace(),
            CharClass::Digit => '0' <= c && c <= '9',
            CharClass::IdentifierPart => c.is_alphanumeric() || c == '_',
            CharClass::CommentText => c != '\n',
            CharClass::StringText => c != '"',
        }
    }
}

/// Decides whether `c` may begin an identifier or a keyword.
pub fn starts_identifier(c: char) -> (b: bool)
    ensures
        b == is_identifier_start(c),
{
    c.is_alphabetic()
}

} // verus!
