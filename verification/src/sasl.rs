//! The SCRAM exchange: what is handed to its client, and what comes back.
use scram::client::{ServerFinal, ServerFirst};
use scram::ScramClient;
use vstd::prelude::*;
use vstd::utf8::{
    encode_utf8, encode_utf8_valid_utf8, is_char_boundary,
    is_char_boundary_iff_not_is_continuation_byte, is_char_boundary_start_end_of_seq,
    utf8_byte_ranges_bitwise, valid_utf8,
};

use crate::base64_text::{base64_text, padded_base64_text};

verus! {

/// An exchange that waits for the server's challenge.
#[verifier::external_type_specification]
#[verifier::external_body]
pub struct ExServerFirst<'a>(ServerFirst<'a>);

/// An exchange that waits for the server's confirmation.
#[verifier::external_type_specification]
#[verifier::external_body]
pub struct ExServerFinal(ServerFinal);

/// Why an exchange failed.
#[verifier::external_type_specification]
#[verifier::external_body]
pub struct ExScramError(scram::Error);

/// What an exchange rests on until the challenge is answered.
pub struct Session {
    pub username: Seq<char>,
    pub password: Seq<char>,
    pub nonce: Seq<char>,
}

/// What an exchange that waits for the challenge holds.
pub uninterp spec fn session_of(state: ServerFirst<'_>) -> Session;

/// The signature that an exchange that waits for the confirmation expects.
pub uninterp spec fn signature_of(state: ServerFinal) -> Seq<u8>;

/// A nonce of the client: printable characters without a comma, as many as it always has.
pub open spec fn is_nonce(nonce: Seq<char>) -> bool {
    &&& nonce.len() == 24
    &&& forall|i: int| 0 <= i < nonce.len() ==> '!' <= #[trigger] nonce[i] <= '}' && nonce[i] != ','
}

/// The first message of the client.
pub open spec fn first_message(username: Seq<char>, nonce: Seq<char>) -> Seq<char> {
    "n,,n="@ + username + ",r="@ + nonce
}

/// `ScramClient::new` without a name to act as, then `ScramClient::client_first`. The
/// name goes out as it is, and the nonce is drawn at random.
#[verifier::external_body]
pub(crate) fn client_first<'a>(username: &'a str, password: &'a str) -> (r: (
    ServerFirst<'a>,
    String,
))
    ensures
        session_of(r.0).username == username@,
        session_of(r.0).password == password@,
        is_nonce(session_of(r.0).nonce),
        r.1@ == first_message(username@, session_of(r.0).nonce),
{
    ScramClient::new(username, password, None).client_first()
}

/// How many bytes the first comma-separated field has.
pub open spec fn field_len(bytes: Seq<u8>) -> int
    decreases bytes.len(),
{
    if bytes.len() == 0 || bytes[0] == 0x2c {
        0
    } else {
        1 + field_len(bytes.drop_first())
    }
}

/// Whether the first `count` comma-separated fields, as far as they are there,
/// have two bytes at least.
pub open spec fn fields_readable(bytes: Seq<u8>, count: nat) -> bool
    decreases count,
{
    count == 0 || {
        let len = field_len(bytes);
        &&& len >= 2
        &&& len < bytes.len() ==> fields_readable(bytes.skip(len + 1), (count - 1) as nat)
    }
}

/// Whether the SCRAM client can read a challenge without running past the end
/// of a field: of each field it looks at the first two bytes.
pub open spec fn challenge_readable(challenge: Seq<u8>) -> bool {
    challenge.len() < 2 || fields_readable(challenge, 3)
}

/// Whether there are so many comma-separated fields.
pub open spec fn has_fields(bytes: Seq<u8>, count: nat) -> bool
    decreases count,
{
    count <= 1 || {
        let len = field_len(bytes);
        len < bytes.len() && has_fields(bytes.skip(len + 1), (count - 1) as nat)
    }
}

/// Whether the SCRAM client can read a confirmation: its first two bytes end a
/// character.
pub open spec fn confirmation_readable(confirmation: Seq<u8>) -> bool {
    confirmation.len() < 2 || is_char_boundary(confirmation, 2)
}

/// The answer to a challenge and the signature that the server has to show for
/// it, or why the challenge cannot be answered.
pub uninterp spec fn challenge_answer(
    username: Seq<char>,
    password: Seq<char>,
    nonce: Seq<char>,
    challenge: Seq<char>,
) -> Result<(Seq<char>, Seq<u8>), scram::Error>;

/// `ServerFirst::handle_server_first`, then `ClientFinal::client_final`. A
/// challenge that does not go on from the client's own nonce is refused, and so is
/// one of fewer than three fields.
#[verifier::external_body]
pub(crate) fn answer_challenge(state: ServerFirst<'_>, challenge: &str) -> (r: Result<
    (ServerFinal, String),
    scram::Error,
>)
    requires
        challenge_readable(encode_utf8(challenge@)),
    ensures
        ({
            let session = session_of(state);
            let answer = challenge_answer(
                session.username,
                session.password,
                session.nonce,
                challenge@,
            );
            match r {
                Ok((next, message)) => {
                    &&& answer == Ok::<_, scram::Error>((message@, signature_of(next)))
                    &&& ("r="@ + session.nonce).is_prefix_of(challenge@)
                    &&& has_fields(encode_utf8(challenge@), 3)
                },
                Err(error) => answer == Err::<(Seq<char>, Seq<u8>), _>(error),
            }
        }),
{
    Ok(state.handle_server_first(challenge)?.client_final())
}

/// The usual form of a confirmation: the signature in Base64, with padding.
pub open spec fn confirmation_of(signature: Seq<u8>) -> Seq<char> {
    "v="@ + padded_base64_text(signature)
}

/// Whether a confirmation shows the signature that was expected: the signature in
/// Base64, with all of its padding, some of it or none.
pub open spec fn confirms(signature: Seq<u8>, confirmation: Seq<char>) -> bool {
    &&& ("v="@ + base64_text(signature)).is_prefix_of(confirmation)
    &&& confirmation.is_prefix_of(confirmation_of(signature))
}

/// Why a confirmation does not show the signature that was expected.
pub uninterp spec fn confirmation_flaw(signature: Seq<u8>, confirmation: Seq<char>) -> scram::Error;

/// `ServerFinal::handle_server_final`: the signature in Base64 behind `v=` is
/// accepted, padded or not, and nothing else. The error is told by the signature
/// and the confirmation.
#[verifier::external_body]
pub(crate) fn check_confirmation(state: ServerFinal, confirmation: &str) -> (r: Result<
    (),
    scram::Error,
>)
    requires
        confirmation_readable(encode_utf8(confirmation@)),
    ensures
        match r {
            Ok(()) => confirms(signature_of(state), confirmation@),
            Err(error) => {
                &&& !confirms(signature_of(state), confirmation@)
                &&& error == confirmation_flaw(signature_of(state), confirmation@)
            },
        },
{
    state.handle_server_final(confirmation)
}

/// Where the comma-separated field ends that begins at `start`.
fn field_end(bytes: &[u8], start: usize) -> (end: usize)
    requires
        start <= bytes@.len(),
    ensures
        end == start + field_len(bytes@.skip(start as int)),
        start <= end <= bytes@.len(),
        end < bytes@.len() ==> bytes@[end as int] == 0x2c,
{
    let mut end: usize = start;
    while end < bytes.len() && bytes[end] != 0x2c
        invariant
            start <= end <= bytes@.len(),
            start + field_len(bytes@.skip(start as int)) == end + field_len(
                bytes@.skip(end as int),
            ),
        decreases bytes@.len() - end,
    {
        assert(bytes@.skip(end as int).drop_first() =~= bytes@.skip(end + 1));
        end = end + 1;
    }
    end
}

/// How many bytes there are before the first of so many fields that is shorter
/// than two bytes, without the comma in front of it: all of them if there is no
/// such field, and -1 if it is the first one.
pub open spec fn legible_len(bytes: Seq<u8>, count: nat) -> int
    decreases count,
{
    if count == 0 {
        bytes.len() as int
    } else {
        let len = field_len(bytes);
        if len < 2 {
            -1
        } else if len >= bytes.len() {
            bytes.len() as int
        } else {
            len + 1 + legible_len(bytes.skip(len + 1), (count - 1) as nat)
        }
    }
}

proof fn lemma_field_len(bytes: Seq<u8>)
    ensures
        0 <= field_len(bytes) <= bytes.len(),
        forall|i: int| 0 <= i < field_len(bytes) ==> bytes[i] != 0x2c,
        field_len(bytes) < bytes.len() ==> bytes[field_len(bytes)] == 0x2c,
    decreases bytes.len(),
{
    if bytes.len() > 0 && bytes[0] != 0x2c {
        let rest = bytes.drop_first();
        lemma_field_len(rest);
        assert forall|i: int| 0 <= i < field_len(bytes) implies bytes[i] != 0x2c by {
            if i > 0 {
                assert(rest[i - 1] == bytes[i]);
            }
        }
        if field_len(bytes) < bytes.len() {
            assert(rest[field_len(rest)] == bytes[field_len(bytes)]);
        }
    }
}

/// What ends a field is the first comma.
pub(crate) proof fn lemma_field_len_is(bytes: Seq<u8>, len: int)
    requires
        0 <= len <= bytes.len(),
        forall|i: int| 0 <= i < len ==> bytes[i] != 0x2c,
        len < bytes.len() ==> bytes[len] == 0x2c,
    ensures
        field_len(bytes) == len,
{
    lemma_field_len(bytes);
    if field_len(bytes) < len {
        assert(bytes[field_len(bytes)] == 0x2c);
    }
}

/// The legible bytes can be read, and those that are cut off leave too few
/// fields.
proof fn lemma_legible(bytes: Seq<u8>, count: nat)
    ensures
        -1 <= legible_len(bytes, count) <= bytes.len(),
        fields_readable(bytes, count) <==> legible_len(bytes, count) == bytes.len(),
        legible_len(bytes, count) >= 0 ==> fields_readable(
            bytes.take(legible_len(bytes, count)),
            count,
        ),
        0 <= legible_len(bytes, count) < bytes.len() ==> !has_fields(
            bytes.take(legible_len(bytes, count)),
            count,
        ) && bytes[legible_len(bytes, count)] == 0x2c,
        legible_len(bytes, count) == -1 ==> count > 0,
    decreases count,
{
    let n = legible_len(bytes, count);
    lemma_field_len(bytes);
    if count > 0 && field_len(bytes) >= 2 {
        let len = field_len(bytes);
        if len < bytes.len() {
            let rest = bytes.skip(len + 1);
            let less = (count - 1) as nat;
            let more = legible_len(rest, less);
            lemma_legible(rest, less);
            let part = bytes.take(n);
            lemma_field_len_is(part, len);
            if more >= 0 {
                assert(part.skip(len + 1) =~= rest.take(more));
                if n < bytes.len() {
                    assert(rest[more] == bytes[n]);
                }
            }
        } else {
            assert(bytes.take(n) =~= bytes);
        }
    } else if count == 0 {
        assert(bytes.take(n) =~= bytes);
    }
}

/// The bytes of a challenge, as far as they are before the first field that the
/// client cannot read.
pub open spec fn legible_part(challenge: Seq<u8>) -> Seq<u8> {
    if challenge_readable(challenge) {
        challenge
    } else {
        let len = legible_len(challenge, 3);
        challenge.take(if len < 0 { 0 } else { len })
    }
}

/// The challenge, or what there is of it before the first field that the client
/// cannot read: too little to be answered.
pub fn legible(challenge: &str) -> (part: &str)
    ensures
        challenge_readable(encode_utf8(part@)),
        encode_utf8(part@) == legible_part(encode_utf8(challenge@)),
        !challenge_readable(encode_utf8(challenge@)) ==> !has_fields(encode_utf8(part@), 3),
{
    let bytes = challenge.as_bytes();
    if bytes.len() < 2 {
        return challenge;
    }
    let mut start: usize = 0;
    let mut left: usize = 3;
    assert(bytes@.skip(0) =~= bytes@);
    proof {
        lemma_legible(bytes@, 3);
        encode_utf8_valid_utf8(challenge@);
    }
    while left > 0
        invariant
            start <= bytes@.len(),
            left <= 3,
            bytes@ == encode_utf8(challenge@),
            bytes@.len() >= 2,
            valid_utf8(bytes@),
            legible_len(bytes@, 3) == start + legible_len(bytes@.skip(start as int), left as nat),
            fields_readable(bytes@, 3) <==> legible_len(bytes@, 3) == bytes@.len(),
        decreases left,
    {
        let end = field_end(bytes, start);
        if end - start < 2 {
            let cut: usize = if start == 0 {
                0
            } else {
                start - 1
            };
            proof {
                lemma_legible(bytes@, 3);
                lemma_cut(bytes@, cut as int);
            }
            let (part, rest) = challenge.split_at(cut);
            assert(encode_utf8(part@) =~= bytes@.take(cut as int));
            return part;
        }
        if end == bytes.len() {
            return challenge;
        }
        assert(bytes@.skip(start as int).skip(end - start + 1) =~= bytes@.skip(end + 1));
        start = end + 1;
        left = left - 1;
    }
    challenge
}

/// A text can be cut in front of a comma.
proof fn lemma_cut(bytes: Seq<u8>, at: int)
    requires
        valid_utf8(bytes),
        0 <= at < bytes.len(),
        at == 0 || bytes[at] == 0x2c,
    ensures
        is_char_boundary(bytes, at),
{
    if at == 0 {
        is_char_boundary_start_end_of_seq(bytes);
    } else {
        is_char_boundary_iff_not_is_continuation_byte(bytes, at);
        utf8_byte_ranges_bitwise(0x2c);
    }
}

/// Whether a confirmation can be handed to the client.
pub fn can_read_confirmation(confirmation: &str) -> (readable: bool)
    ensures
        readable == confirmation_readable(encode_utf8(confirmation@)),
{
    confirmation.as_bytes().len() < 2 || confirmation.is_char_boundary(2)
}

} // verus!
