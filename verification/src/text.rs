//! Text: the strings of error messages, and bytes as text.
use vstd::prelude::*;
use vstd::utf8::{encode_utf8, encode_utf8_decode_utf8, valid_utf8};

use crate::backend::texts;

verus! {

/// Why bytes are no UTF-8 text.
#[verifier::external_type_specification]
#[verifier::external_body]
pub struct ExUtf8Error(std::str::Utf8Error);

/// What is wrong with bytes that are no UTF-8 text.
pub uninterp spec fn utf8_flaw(bytes: Seq<u8>) -> std::str::Utf8Error;

/// `std::str::from_utf8`: the text whose UTF-8 bytes these are, if there is one.
/// The error is told by the bytes.
pub assume_specification[ std::str::from_utf8 ](bytes: &[u8]) -> (r: Result<
    &str,
    std::str::Utf8Error,
>)
    ensures
        match r {
            Ok(text) => encode_utf8(text@) == bytes@,
            Err(error) => !valid_utf8(bytes@) && error == utf8_flaw(bytes@),
        },
;

/// Whether a character shows itself as it is between double quotes: printable
/// ASCII but for quotes and the backslash.
pub open spec fn is_plain(c: char) -> bool {
    ' ' <= c <= '~' && c != '"' && c != '\'' && c != '\\'
}

/// Whether all characters of all strings of a list show themselves as they are.
pub open spec fn all_plain(items: Seq<Seq<char>>) -> bool {
    forall|i: int, j: int|
        0 <= i < items.len() && 0 <= j < items[i].len() ==> is_plain(#[trigger] items[i][j])
}

/// Strings in double quotes, with a comma and a space between each two.
pub open spec fn quoted(items: Seq<Seq<char>>) -> Seq<char>
    decreases items.len(),
{
    if items.len() == 0 {
        seq![]
    } else if items.len() == 1 {
        seq!['"'] + items[0] + seq!['"']
    } else {
        quoted(items.drop_last()) + seq![',', ' ', '"'] + items.last() + seq!['"']
    }
}

/// How a list shows itself that holds other characters too.
pub uninterp spec fn escaped_text(items: Seq<Seq<char>>) -> Seq<char>;

/// A list in brackets, or else `otherwise` where some character of it does not
/// show itself as it is.
pub open spec fn shown_or(items: Seq<Seq<char>>, otherwise: Seq<char>) -> Seq<char> {
    if all_plain(items) {
        seq!['['] + quoted(items) + seq![']']
    } else {
        otherwise
    }
}

/// How a list of strings shows itself for debugging.
pub open spec fn debug_text(items: Seq<Seq<char>>) -> Seq<char> {
    shown_or(items, escaped_text(items))
}

/// The `Debug` form of `Vec<String>`: the strings in double quotes, with commas
/// between them and brackets around them. Nothing is said of how a string shows
/// itself that holds a quote, a backslash or what is not printable ASCII.
#[verifier::external_body]
fn debug(items: &Vec<String>) -> (text: String)
    ensures
        text@ == shown_or(texts(items@), escaped_text(texts(items@))),
{
    format!("{:?}", items)
}

/// `before`, and behind it how the list shows itself.
pub fn with_list(before: &str, items: &Vec<String>) -> (text: String)
    ensures
        text@ == before@ + debug_text(texts(items@)),
{
    let mut text = before.to_owned();
    text.append(debug(items).as_str());
    text
}

/// Whether two strings have the same characters.
pub fn same_text(a: &str, b: &str) -> (same: bool)
    ensures
        same == (a@ == b@),
{
    let x = a.as_bytes();
    let y = b.as_bytes();
    proof {
        encode_utf8_decode_utf8(a@);
        encode_utf8_decode_utf8(b@);
    }
    if x.len() != y.len() {
        return false;
    }
    let mut i: usize = 0;
    while i < x.len()
        invariant
            i <= x@.len() == y@.len(),
            x@ == encode_utf8(a@),
            y@ == encode_utf8(b@),
            forall|j: int| 0 <= j < i ==> x@[j] == y@[j],
        decreases x@.len() - i,
    {
        if x[i] != y[i] {
            return false;
        }
        i = i + 1;
    }
    assert(x@ =~= y@);
    true
}

/// A list without strings shows itself as a pair of brackets. A further string goes in
/// front of the closing one, in double quotes, behind a comma and a space if it is not
/// the first.
pub proof fn law_list_shows_its_strings(items: Seq<Seq<char>>, next: Seq<char>)
    requires
        forall|i: int, j: int|
            0 <= i < items.len() && 0 <= j < items[i].len() ==> ' ' <= #[trigger] items[i][j]
                <= '~' && items[i][j] != '"' && items[i][j] != '\'' && items[i][j] != '\\',
        forall|j: int|
            0 <= j < next.len() ==> ' ' <= #[trigger] next[j] <= '~' && next[j] != '"' && next[j]
                != '\'' && next[j] != '\\',
    ensures
        debug_text(Seq::empty()) == seq!['[', ']'],
        debug_text(items.push(next)) == debug_text(items).drop_last() + (if items.len() == 0 {
            seq![]
        } else {
            seq![',', ' ']
        }) + seq!['"'] + next + seq!['"', ']'],
{
    let more = items.push(next);
    assert(debug_text(Seq::empty()) =~= seq!['[', ']']);
    assert forall|i: int, j: int|
        0 <= i < more.len() && 0 <= j < more[i].len() implies is_plain(#[trigger] more[i][j]) by {
        if i < items.len() {
            assert(more[i] == items[i]);
            assert(' ' <= items[i][j] <= '~');
        }
    }
    assert(all_plain(items));
    assert(more.drop_last() =~= items);
    if items.len() == 0 {
        assert(quoted(more) =~= seq!['"'] + next + seq!['"']);
    } else {
        assert(quoted(more) =~= quoted(items) + seq![',', ' ', '"'] + next + seq!['"']);
    }
    assert(debug_text(items).drop_last() =~= seq!['['] + quoted(items));
    assert(debug_text(more) =~= debug_text(items).drop_last() + (if items.len() == 0 {
        seq![]
    } else {
        seq![',', ' ']
    }) + seq!['"'] + next + seq!['"', ']']);
}

} // verus!
