//! Character classes the preprocessor depends on: the word characters that
//! bound a macro substitution site, and the whitespace characters that
//! `str::trim_start` strips.

use vstd::prelude::*;

verus! {

/// What `char::is_alphanumeric` returns for a character. The result depends
/// on the character alone, so it can be given a name even though writing the
/// Unicode tables out is out of the question.
pub uninterp spec fn alphanumeric(c: char) -> bool;

/// Relies on `char::is_alphanumeric` from std: a pure predicate of the
/// character, named by [`alphanumeric`].
#[verifier::external_body]
fn char_is_alphanumeric(c: char) -> (r: bool)
    ensures
        r == alphanumeric(c),
{
    c.is_alphanumeric()
}

/// A word character: alphanumeric or an underscore. A macro name is only
/// substituted where the characters flanking the occurrence are not word
/// characters.
pub open spec fn spec_is_word_char(c: char) -> bool {
    alphanumeric(c) || c == '_'
}

/// Whether `c` is a word character (alphanumeric or `_`).
pub fn is_word_char(c: char) -> (r: bool)
    ensures
        r == spec_is_word_char(c),
{
    char_is_alphanumeric(c) || c == '_'
}

/// The Unicode `White_Space` characters: exactly the set that
/// `str::trim_start` strips from the front of a string.
pub open spec fn spec_is_space_char(c: char) -> bool {
    ||| c == ' '
    ||| c == '\t'
    ||| c == '\n'
    ||| c == '\u{000B}'
    ||| c == '\u{000C}'
    ||| c == '\r'
    ||| c == '\u{0085}'
    ||| c == '\u{00A0}'
    ||| c == '\u{1680}'
    ||| c == '\u{2000}'
    ||| c == '\u{2001}'
    ||| c == '\u{2002}'
    ||| c == '\u{2003}'
    ||| c == '\u{2004}'
    ||| c == '\u{2005}'
    ||| c == '\u{2006}'
    ||| c == '\u{2007}'
    ||| c == '\u{2008}'
    ||| c == '\u{2009}'
    ||| c == '\u{200A}'
    ||| c == '\u{2028}'
    ||| c == '\u{2029}'
    ||| c == '\u{202F}'
    ||| c == '\u{205F}'
    ||| c == '\u{3000}'
}

/// Whether `c` is whitespace in the sense of `str::trim_start`.
pub fn is_space_char(c: char) -> (r: bool)
    ensures
        r == spec_is_space_char(c),
{
    c == ' ' || c == '\t' || c == '\n' || c == '\u{000B}' || c == '\u{000C}' || c == '\r'
        || c == '\u{0085}' || c == '\u{00A0}' || c == '\u{1680}' || c == '\u{2000}'
        || c == '\u{2001}' || c == '\u{2002}' || c == '\u{2003}' || c == '\u{2004}'
        || c == '\u{2005}' || c == '\u{2006}' || c == '\u{2007}' || c == '\u{2008}'
        || c == '\u{2009}' || c == '\u{200A}' || c == '\u{2028}' || c == '\u{2029}'
        || c == '\u{202F}' || c == '\u{205F}' || c == '\u{3000}'
}

} // verus!
