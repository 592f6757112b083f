//! How numbers, strings and frames are laid out in the bytes of the protocol.
use vstd::prelude::*;
use vstd::utf8::encode_utf8;

verus! {

/// The low 16 bits of `n`, most significant byte first.
pub open spec fn be16(n: int) -> Seq<u8> {
    seq![((n / 0x100) % 0x100) as u8, (n % 0x100) as u8]
}

/// The low 32 bits of `n`, most significant byte first.
pub open spec fn be32(n: int) -> Seq<u8> {
    be16(n / 0x1_0000) + be16(n)
}

/// A string on the wire: its UTF-8 bytes, then a zero byte.
pub open spec fn cstr(text: Seq<char>) -> Seq<u8> {
    encode_utf8(text).push(0)
}

/// Whether a string can stand on the wire: no byte of it is zero.
pub open spec fn no_nul(text: Seq<char>) -> bool {
    !encode_utf8(text).contains(0)
}

/// A counted list of 16-bit numbers.
pub open spec fn counted16(items: Seq<i16>) -> Seq<u8> {
    be16(items.len() as int) + items.map_values(|i: i16| be16(i as int)).flatten()
}

/// A counted list of 32-bit numbers.
pub open spec fn counted32(items: Seq<u32>) -> Seq<u8> {
    be16(items.len() as int) + items.map_values(|i: u32| be32(i as int)).flatten()
}

/// Whether a list is short enough to be counted.
pub open spec fn countable(len: nat) -> bool {
    len <= i16::MAX
}

/// Whether a body is short enough for the length that goes before it, which counts itself.
pub open spec fn sizable(body: Seq<u8>) -> bool {
    body.len() + 4 <= i32::MAX
}

/// A body behind its length. The length counts itself.
pub open spec fn sized(body: Seq<u8>) -> Seq<u8> {
    be32(body.len() as int + 4) + body
}

/// A frame: the tag of its kind, then the body behind its length.
pub open spec fn framed(tag: u8, body: Seq<u8>) -> Seq<u8> {
    seq![tag] + sized(body)
}

/// The number that four bytes hold, most significant byte first.
pub open spec fn read32(bytes: Seq<u8>) -> nat {
    (bytes[0] as nat) * 0x100_0000 + (bytes[1] as nat) * 0x1_0000 + (bytes[2] as nat) * 0x100 + (
    bytes[3] as nat)
}

/// The number that two bytes hold, most significant byte first.
pub open spec fn read16(bytes: Seq<u8>) -> nat {
    (bytes[0] as nat) * 0x100 + (bytes[1] as nat)
}

/// Reading back a 32-bit number gives the number that was written.
pub proof fn law_read_back(n: int)
    requires
        0 <= n <= u32::MAX,
    ensures
        read32(be32(n)) == n,
        be32(n).len() == 4,
{
}

/// Reading back a 16-bit number gives the number that was written.
pub proof fn law_read_back_short(n: int)
    requires
        0 <= n <= u16::MAX,
    ensures
        read16(be16(n)) == n,
        be16(n).len() == 2,
{
}

/// The length that a frame declares is one less than the bytes of the frame:
/// the tag is not counted.
pub proof fn law_frame_declares_its_length(tag: u8, body: Seq<u8>)
    requires
        sizable(body),
    ensures
        framed(tag, body)[0] == tag,
        framed(tag, body).len() == body.len() + 5,
        read32(framed(tag, body).subrange(1, 5)) + 1 == framed(tag, body).len(),
        framed(tag, body).skip(5) == body,
{
    law_read_back(body.len() as int + 4);
    let frame = framed(tag, body);
    assert(frame.subrange(1, 5) =~= be32(body.len() as int + 4));
    assert(frame.skip(5) =~= body);
}

/// Four bytes, most significant first: how the protocol spells a length.
pub open spec fn spelled(n: nat) -> Seq<u8> {
    seq![
        (n / 0x100_0000 % 0x100) as u8,
        (n / 0x1_0000 % 0x100) as u8,
        (n / 0x100 % 0x100) as u8,
        (n % 0x100) as u8,
    ]
}

/// Numbers go out most significant byte first, and -1 as all ones.
pub proof fn law_numbers_are_spelled(n: int)
    ensures
        0 <= n <= u32::MAX ==> be32(n) == spelled(n as nat),
        0 <= n <= u16::MAX ==> be16(n) == seq![(n / 0x100) as u8, (n % 0x100) as u8],
        be32(-1) == seq![0xffu8, 0xff, 0xff, 0xff],
        be16(-1) == seq![0xffu8, 0xff],
{
    assert(be32(n) =~= be16(n / 0x1_0000) + be16(n));
    assert(n / 0x1_0000 / 0x100 == n / 0x100_0000);
    if 0 <= n <= u32::MAX {
        assert(be32(n) =~= spelled(n as nat));
    }
    assert(-1int / 0x1_0000 == -1);
    assert(be16(-1) =~= seq![0xffu8, 0xff]);
    assert(be32(-1) =~= seq![0xffu8, 0xff, 0xff, 0xff]);
}

/// A frame is its tag, four bytes with the length of the body and themselves, and
/// the body. Without the tag it is the same.
pub proof fn law_frame_is_spelled(tag: u8, body: Seq<u8>)
    requires
        body.len() + 4 <= u32::MAX,
    ensures
        framed(tag, body) == seq![tag] + spelled(body.len() + 4) + body,
        sized(body) == spelled(body.len() + 4) + body,
{
    law_numbers_are_spelled(body.len() as int + 4);
    assert(framed(tag, body) =~= seq![tag] + spelled(body.len() + 4) + body);
}

/// A string goes out as its UTF-8 bytes and a zero byte, and only if none of them
/// is zero. A length has 31 bits, and a count 15.
pub proof fn law_limits_are_spelled(text: Seq<char>, body: Seq<u8>, count: nat)
    ensures
        cstr(text) == encode_utf8(text) + seq![0u8],
        no_nul(text) <==> !encode_utf8(text).contains(0),
        sizable(body) <==> body.len() + 4 <= 0x7fff_ffff,
        countable(count) <==> count <= 0x7fff,
{
    assert(cstr(text) =~= encode_utf8(text) + seq![0u8]);
}

} // verus!
