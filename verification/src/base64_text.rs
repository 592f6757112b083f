//! Base64, with and without padding.
use base64::prelude::BASE64_STANDARD_NO_PAD;
use base64::Engine;
use vstd::prelude::*;

verus! {

/// Why text is no Base64.
#[verifier::external_type_specification]
#[verifier::external_body]
pub struct ExDecodeError(base64::DecodeError);

/// The character for six bits, in the standard alphabet.
pub open spec fn symbol(bits: int) -> char {
    if bits < 26 {
        (bits + 0x41) as char
    } else if bits < 52 {
        (bits - 26 + 0x61) as char
    } else if bits < 62 {
        (bits - 52 + 0x30) as char
    } else if bits == 62 {
        '+'
    } else {
        '/'
    }
}

/// The Base64 text of bytes: four characters for three bytes, and two or three
/// for the one or two that are left at the end.
pub open spec fn base64_text(bytes: Seq<u8>) -> Seq<char>
    decreases bytes.len(),
{
    let a = bytes[0] as int;
    let b = bytes[1] as int;
    let c = bytes[2] as int;
    if bytes.len() == 0 {
        seq![]
    } else if bytes.len() == 1 {
        seq![symbol(a / 4), symbol(a % 4 * 16)]
    } else if bytes.len() == 2 {
        seq![symbol(a / 4), symbol(a % 4 * 16 + b / 16), symbol(b % 16 * 4)]
    } else {
        seq![
            symbol(a / 4),
            symbol(a % 4 * 16 + b / 16),
            symbol(b % 16 * 4 + c / 64),
            symbol(c % 64),
        ] + base64_text(bytes.skip(3))
    }
}

/// The Base64 text of bytes, filled up to a multiple of four characters.
pub open spec fn padded_base64_text(bytes: Seq<u8>) -> Seq<char> {
    let text = base64_text(bytes);
    text + Seq::new(((4 - text.len() % 4) % 4) as nat, |i: int| '=')
}

/// What is wrong with text that is no Base64.
pub uninterp spec fn base64_flaw(text: Seq<char>) -> base64::DecodeError;

/// `BASE64_STANDARD_NO_PAD.decode`: the bytes whose Base64 text this is, if
/// there are any. The error is told by the text.
#[verifier::external_body]
pub(crate) fn decode(text: &str) -> (r: Result<Vec<u8>, base64::DecodeError>)
    ensures
        match r {
            Ok(bytes) => base64_text(bytes@) == text@,
            Err(error) => {
                &&& error == base64_flaw(text@)
                &&& forall|bytes: Seq<u8>| #[trigger] base64_text(bytes) != text@
            },
        },
{
    BASE64_STANDARD_NO_PAD.decode(text)
}

proof fn lemma_symbol_is_unambiguous(a: int, b: int)
    requires
        0 <= a < 64,
        0 <= b < 64,
        symbol(a) == symbol(b),
    ensures
        a == b,
{
    assert(symbol(a) as int == symbol(b) as int);
}

proof fn lemma_text_len(bytes: Seq<u8>)
    ensures
        base64_text(bytes).len() == (bytes.len() * 4 + 2) / 3,
    decreases bytes.len(),
{
    if bytes.len() >= 3 {
        lemma_text_len(bytes.skip(3));
    }
}

/// The first characters of a Base64 text, and the rest.
proof fn lemma_text_start(bytes: Seq<u8>)
    requires
        bytes.len() > 0,
    ensures
        ({
            let s = base64_text(bytes);
            let a = bytes[0] as int;
            let b = if bytes.len() > 1 { bytes[1] as int } else { 0 };
            let c = if bytes.len() > 2 { bytes[2] as int } else { 0 };
            &&& s[0] == symbol(a / 4)
            &&& s[1] == symbol(a % 4 * 16 + b / 16)
            &&& bytes.len() > 1 ==> s[2] == symbol(b % 16 * 4 + c / 64)
            &&& bytes.len() > 2 ==> s[3] == symbol(c % 64) && s.skip(4) == base64_text(
                bytes.skip(3),
            )
        }),
{
    if bytes.len() > 2 {
        let s = base64_text(bytes);
        assert(s.skip(4) =~= base64_text(bytes.skip(3)));
    }
}

/// A text is the Base64 text of one sequence of bytes at most.
pub proof fn law_base64_is_unambiguous(x: Seq<u8>, y: Seq<u8>)
    requires
        base64_text(x) == base64_text(y),
    ensures
        x == y,
    decreases x.len(),
{
    lemma_text_len(x);
    lemma_text_len(y);
    assert(x.len() == y.len());
    if x.len() > 0 {
        lemma_text_start(x);
        lemma_text_start(y);
        let (a, d) = (x[0] as int, y[0] as int);
        let (b, e) = if x.len() > 1 { (x[1] as int, y[1] as int) } else { (0, 0) };
        let (c, f) = if x.len() > 2 { (x[2] as int, y[2] as int) } else { (0, 0) };
        lemma_symbol_is_unambiguous(a / 4, d / 4);
        lemma_symbol_is_unambiguous(a % 4 * 16 + b / 16, d % 4 * 16 + e / 16);
        if x.len() > 1 {
            lemma_symbol_is_unambiguous(b % 16 * 4 + c / 64, e % 16 * 4 + f / 64);
        }
        if x.len() > 2 {
            lemma_symbol_is_unambiguous(c % 64, f % 64);
            law_base64_is_unambiguous(x.skip(3), y.skip(3));
            assert forall|i: int| 3 <= i < x.len() implies x[i] == y[i] by {
                assert(x.skip(3)[i - 3] == y.skip(3)[i - 3]);
            }
        }
    }
    assert(x =~= y);
}

proof fn lemma_no_padding_in_text(bytes: Seq<u8>)
    ensures
        forall|i: int| 0 <= i < base64_text(bytes).len() ==> #[trigger] base64_text(bytes)[i] != '=',
    decreases bytes.len(),
{
    if bytes.len() >= 3 {
        lemma_no_padding_in_text(bytes.skip(3));
        lemma_text_start(bytes);
        let text = base64_text(bytes);
        assert forall|i: int| 0 <= i < text.len() implies #[trigger] text[i] != '=' by {
            if i >= 4 {
                assert(text.skip(4)[i - 4] == text[i]);
            }
        }
    }
}

/// However much of the padding is there, a text stands for one sequence of bytes
/// at most.
pub proof fn law_padding_hides_nothing(x: Seq<u8>, y: Seq<u8>, text: Seq<char>)
    requires
        base64_text(x).is_prefix_of(text) && text.is_prefix_of(padded_base64_text(x)),
        base64_text(y).is_prefix_of(text) && text.is_prefix_of(padded_base64_text(y)),
    ensures
        x == y,
{
    let (a, b) = (base64_text(x), base64_text(y));
    lemma_no_padding_in_text(x);
    lemma_no_padding_in_text(y);
    assert forall|i: int| 0 <= i < a.len() implies text[i] == a[i] by {
        assert(text.subrange(0, a.len() as int)[i] == text[i]);
    }
    assert forall|i: int| 0 <= i < b.len() implies text[i] == b[i] by {
        assert(text.subrange(0, b.len() as int)[i] == text[i]);
    }
    assert forall|i: int| a.len() <= i < text.len() implies text[i] == '=' by {
        assert(padded_base64_text(x).subrange(0, text.len() as int)[i] == text[i]);
    }
    assert forall|i: int| b.len() <= i < text.len() implies text[i] == '=' by {
        assert(padded_base64_text(y).subrange(0, text.len() as int)[i] == text[i]);
    }
    if a.len() < b.len() {
        assert(b[a.len() as int] == text[a.len() as int]);
    }
    if b.len() < a.len() {
        assert(a[b.len() as int] == text[b.len() as int]);
    }
    assert(a =~= b);
    law_base64_is_unambiguous(x, y);
}

/// The 64 characters of the alphabet, by the six bits that they stand for.
pub open spec fn alphabet() -> Seq<char> {
    "ABCDEFGHIJKLMNOPQRSTUVWXYZabcdefghijklmnopqrstuvwxyz0123456789+/"@
}

/// The six bits at a place of a text, out of the bits of the bytes in their order.
/// Behind the last byte stand zeros.
pub open spec fn six_bits(bytes: Seq<u8>, at: int) -> int {
    let first = at / 4 * 3;
    let byte = |i: int| if i < bytes.len() { bytes[i] as int } else { 0 };
    if at % 4 == 0 {
        byte(first) / 4
    } else if at % 4 == 1 {
        byte(first) % 4 * 16 + byte(first + 1) / 16
    } else if at % 4 == 2 {
        byte(first + 1) % 16 * 4 + byte(first + 2) / 64
    } else {
        byte(first + 2) % 64
    }
}

proof fn lemma_alphabet(bits: int)
    requires
        0 <= bits < 64,
    ensures
        alphabet()[bits] == symbol(bits),
{
    reveal_strlit("ABCDEFGHIJKLMNOPQRSTUVWXYZabcdefghijklmnopqrstuvwxyz0123456789+/");
}

/// A Base64 text spells the bits of the bytes, six to a character, and it has as
/// many characters as that takes.
pub proof fn law_text_spells_the_bits(bytes: Seq<u8>)
    ensures
        base64_text(bytes).len() == (bytes.len() * 8 + 5) / 6,
        forall|at: int|
            0 <= at < base64_text(bytes).len() ==> #[trigger] base64_text(bytes)[at]
                == alphabet()[six_bits(bytes, at)],
    decreases bytes.len(),
{
    let text = base64_text(bytes);
    lemma_text_len(bytes);
    assert forall|at: int| 0 <= at < text.len() implies #[trigger] text[at] == alphabet()[six_bits(
        bytes,
        at,
    )] by {
        lemma_text_start(bytes);
        lemma_alphabet(six_bits(bytes, at));
        if at >= 4 {
            let rest = bytes.skip(3);
            law_text_spells_the_bits(rest);
            lemma_text_len(rest);
            assert(text.skip(4)[at - 4] == text[at]);
            assert((at - 4) / 4 * 3 + 3 == at / 4 * 3);
            assert((at - 4) % 4 == at % 4);
            assert(six_bits(rest, at - 4) == six_bits(bytes, at));
        }
    }
}

} // verus!
