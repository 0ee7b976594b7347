//! Character classification for the scanners: whitespace, tag-name
//! characters, attribute-name and attribute-value characters, and the
//! delimiter classes the cursor stops on.

use vstd::prelude::*;

verus! {

/// Unicode `White_Space` code points, the class the scanners skip.
pub open spec fn is_space_char(c: char) -> bool {
    ||| c == ' '
    ||| c == '\t'
    ||| c == '\n'
    ||| c == '\r'
    ||| c as u32 == 0x0B
    ||| c as u32 == 0x0C
    ||| c as u32 == 0x85
    ||| c as u32 == 0xA0
    ||| c as u32 == 0x1680
    ||| (0x2000 <= c as u32 && c as u32 <= 0x200A)
    ||| c as u32 == 0x2028
    ||| c as u32 == 0x2029
    ||| c as u32 == 0x202F
    ||| c as u32 == 0x205F
    ||| c as u32 == 0x3000
}

/// Valid tag-name characters: ASCII letters and digits, case preserved.
pub open spec fn is_tag_name_char(c: char) -> bool {
    ||| ('0' <= c && c <= '9')
    ||| ('a' <= c && c <= 'z')
    ||| ('A' <= c && c <= 'Z')
}

/// Characters that end an attribute name.
pub open spec fn is_excluded_name_char(c: char) -> bool {
    c == ' ' || c == '"' || c == '\'' || c == '>' || c == '/' || c == '='
}

/// C0 and C1 control characters, excluded from attribute names.
pub open spec fn is_control_char(c: char) -> bool {
    ||| c as u32 == 0x7F
    ||| c as u32 <= 0x1F
    ||| (0x80 <= c as u32 && c as u32 <= 0x9F)
}

/// Valid attribute-name characters.
pub open spec fn is_attr_name_char(c: char) -> bool {
    !is_excluded_name_char(c) && !is_control_char(c)
}

/// Valid characters of an unquoted attribute value.
pub open spec fn is_attr_value_char(c: char) -> bool {
    !(c == ' ' || c == '"' || c == '\'' || c == '=' || c == '<' || c == '>' || c == '`')
}

/// Checks whether `ch` may appear in a tag name.
pub fn is_valid_tag_name(ch: char) -> (b: bool)
    ensures
        b == is_tag_name_char(ch),
{
    ('0' <= ch && ch <= '9') || ('a' <= ch && ch <= 'z') || ('A' <= ch && ch <= 'Z')
}

/// Checks whether `c` ends an attribute name.
pub fn is_excluded_name(c: char) -> (b: bool)
    ensures
        b == is_excluded_name_char(c),
{
    c == ' ' || c == '"' || c == '\'' || c == '>' || c == '/' || c == '='
}

/// Checks whether `ch` is a C0 or C1 control character.
pub fn is_control(ch: char) -> (b: bool)
    ensures
        b == is_control_char(ch),
{
    ch as u32 == 0x7F || ch as u32 <= 0x1F || (0x80 <= ch as u32 && ch as u32 <= 0x9F)
}

/// Checks whether `c` may appear in an attribute name.
pub fn is_valid_attr_name(c: char) -> (b: bool)
    ensures
        b == is_attr_name_char(c),
{
    !is_excluded_name(c) && !is_control(c)
}

/// Checks whether `c` may appear in an unquoted attribute value.
pub fn is_valid_attr_value(c: char) -> (b: bool)
    ensures
        b == is_attr_value_char(c),
{
    !(c == ' ' || c == '"' || c == '\'' || c == '=' || c == '<' || c == '>' || c == '`')
}

/// Checks whether `c` is whitespace.
pub fn is_whitespace(c: char) -> (b: bool)
    ensures
        b == is_space_char(c),
{
    c == ' ' || c == '\t' || c == '\n' || c == '\r' || c as u32 == 0x0B || c as u32 == 0x0C
        || c as u32 == 0x85 || c as u32 == 0xA0 || c as u32 == 0x1680 || (0x2000 <= c as u32
        && c as u32 <= 0x200A) || c as u32 == 0x2028 || c as u32 == 0x2029 || c as u32 == 0x202F
        || c as u32 == 0x205F || c as u32 == 0x3000
}

/// The character classes the cursor's greedy scan can run over.
#[derive(Clone, Copy)]
pub enum CharClass {
    /// Whitespace.
    Space,
    /// ASCII letters and digits.
    TagName,
    /// Attribute-name characters.
    AttrName,
    /// Unquoted attribute-value characters.
    AttrValue,
    /// Any character other than the given delimiter.
    Until(char),
    /// Comment text: anything but `<` and `-`.
    CommentText,
    /// A text run: anything but whitespace and `<`.
    Text,
    /// Junk after an attribute value: anything but whitespace and `>`.
    AttrJunk,
}

/// Membership of a character in a scanning class.
pub open spec fn in_class(cls: CharClass, c: char) -> bool {
    match cls {
        CharClass::Space => is_space_char(c),
        CharClass::TagName => is_tag_name_char(c),
        CharClass::AttrName => is_attr_name_char(c),
        CharClass::AttrValue => is_attr_value_char(c),
        CharClass::Until(d) => c != d,
        CharClass::CommentText => c != '<' && c != '-',
        CharClass::Text => !is_space_char(c) && c != '<',
        CharClass::AttrJunk => !is_space_char(c) && c != '>',
    }
}

/// Checks membership of `c` in the class `cls`.
pub fn class_matches(cls: CharClass, c: char) -> (b: bool)
    ensures
        b == in_class(cls, c),
{
    match cls {
        CharClass::Space => is_whitespace(c),
        CharClass::TagName => is_valid_tag_name(c),
        CharClass::AttrName => is_valid_attr_name(c),
        CharClass::AttrValue => is_valid_attr_value(c),
        CharClass::Until(d) => c != d,
        CharClass::CommentText => c != '<' && c != '-',
        CharClass::Text => !is_whitespace(c) && c != '<',
        CharClass::AttrJunk => !is_whitespace(c) && c != '>',
    }
}

} // verus!
