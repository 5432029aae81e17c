//! The functions of the standard library that this crate calls and whose
//! behaviour is stated here rather than proved.

use vstd::prelude::*;
use vstd::utf8;

use crate::text;

verus! {

/// `String::push` appends the given character to the end of the string.
pub assume_specification[ String::push ](s: &mut String, c: char)
    ensures
        final(s)@ == old(s)@.push(c),
;

/// The error of `std::str::from_utf8`; nothing in this crate looks inside it.
#[verifier::external_type_specification]
#[verifier::external_body]
pub struct ExUtf8Error(std::str::Utf8Error);

/// `std::str::from_utf8` succeeds exactly on valid UTF-8, and the string it
/// returns is the one that those bytes encode.
pub assume_specification[ std::str::from_utf8 ](v: &[u8]) -> (r: Result<
    &str,
    std::str::Utf8Error,
>)
    ensures
        r is Ok <==> utf8::valid_utf8(v@),
        r matches Ok(s) ==> s@ == utf8::decode_utf8(v@),
;

/// What `String::from_utf8_lossy` makes of a byte sequence.
pub uninterp spec fn utf8_lossy(bytes: Seq<u8>) -> Seq<char>;

/// `String::from_utf8_lossy` decodes the bytes, putting replacement characters
/// where they are not valid UTF-8. Its result depends on the bytes alone and is
/// called `utf8_lossy` here; on valid UTF-8 it is the decoded text. Where the
/// replacement characters fall is left unsaid.
#[verifier::external_body]
pub(crate) fn from_utf8_lossy(bytes: &[u8]) -> (decoded: String)
    ensures
        decoded@ == utf8_lossy(bytes@),
        utf8::valid_utf8(bytes@) ==> decoded@ == utf8::decode_utf8(bytes@),
{
    String::from_utf8_lossy(bytes).into_owned()
}

/// The text of a byte sequence: what it encodes if it is valid UTF-8, and else
/// what is left of it.
pub open spec fn decoded(bytes: Seq<u8>) -> Seq<char> {
    if utf8::valid_utf8(bytes) {
        utf8::decode_utf8(bytes)
    } else {
        utf8_lossy(bytes)
    }
}

/// What `str::to_lowercase` makes of a text.
pub uninterp spec fn unicode_lowercase(text: Seq<char>) -> Seq<char>;

/// `str::to_lowercase` maps a text to its Unicode lower case, called
/// `unicode_lowercase` here. On ASCII text that is the ASCII lower case.
pub assume_specification[ str::to_lowercase ](s: &str) -> (r: String)
    ensures
        r@ == unicode_lowercase(s@),
        utf8::is_ascii_chars(s@) ==> r@ == text::ascii_lowercase(s@),
;

/// The lower case of a text.
pub open spec fn lowercase(s: Seq<char>) -> Seq<char> {
    if utf8::is_ascii_chars(s) {
        text::ascii_lowercase(s)
    } else {
        unicode_lowercase(s)
    }
}

/// The `{:?}` form of a string: the text between double quotes, escaped.
pub uninterp spec fn debug_quoted(text: Seq<char>) -> Seq<char>;

/// Whether a text consists of printable ASCII characters other than the double
/// quote and the backslash.
pub open spec fn is_plain(text: Seq<char>) -> bool {
    forall|i: int|
        0 <= i < text.len() ==> ' ' <= #[trigger] text[i] <= '~' && text[i] != '"' && text[i]
            != '\\'
}

/// A text between double quotes.
pub open spec fn in_quotes(text: Seq<char>) -> Seq<char> {
    seq!['"'] + text + seq!['"']
}

/// Formatting a `&str` with `{:?}`. The result depends on the text alone and is
/// called `debug_quoted` here. Printable ASCII characters other than the double
/// quote and the backslash stand for themselves; how other characters are
/// written is left unsaid.
#[verifier::external_body]
pub(crate) fn quote_debug(text: &str) -> (quoted: String)
    ensures
        quoted@ == debug_quoted(text@),
        is_plain(text@) ==> quoted@ == in_quotes(text@),
{
    format!("{:?}", text)
}

/// A text in quotes, for messages to a user.
pub open spec fn quoted(text: Seq<char>) -> Seq<char> {
    if is_plain(text) {
        in_quotes(text)
    } else {
        debug_quoted(text)
    }
}

/// `<[u32]>::sort_unstable` rearranges the elements into ascending order.
#[verifier::external_body]
pub(crate) fn sort_ascending(values: &mut Vec<u32>)
    ensures
        final(values)@.to_multiset() == old(values)@.to_multiset(),
        forall|i: int, j: int|
            0 <= i <= j < final(values)@.len() ==> final(values)@[i] <= final(values)@[j],
{
    values.sort_unstable();
}

} // verus!
