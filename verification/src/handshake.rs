//! From the startup message to the first "ready for query": what each message
//! of the server asks of the client.
use scram::client::{ServerFinal, ServerFirst};
use std::io;
use std::str::{from_utf8, Utf8Error};
use vstd::prelude::*;
use vstd::utf8::{
    decode_utf8, decode_utf8_encode_utf8, encode_utf8, encode_utf8_decode_utf8,
    encode_utf8_first_scalar,
    encode_utf8_valid_utf8, is_ascii_chars_encode_utf8, is_char_boundary, pop_first_scalar,
    valid_utf8,
};

use crate::address::chars_of;
use crate::base64_text::{base64_text, law_padding_hides_nothing, law_text_spells_the_bits};
use crate::backend::{
    get_msg_name, law_admission_and_readiness_arrive, law_one_message_at_a_time, message_name,
    messages, texts, Message, MessageView, Signal,
};
use crate::frontend::{
    encodes, sasl_flaw, sasl_initial_body, sasl_initial_flaw, sasl_initial_response,
    sasl_response,
};
use crate::reply::{law_text_read_back, leading_text};
use crate::sasl::{
    answer_challenge, can_read_confirmation, challenge_answer, challenge_readable,
    check_confirmation, client_first, confirmation_flaw, confirmation_of, confirmation_readable,
    confirms, field_len, fields_readable, first_message, is_nonce, legible, legible_part,
    lemma_field_len_is, session_of, signature_of, Session,
};
use crate::text::{debug_text, same_text, utf8_flaw, with_list};
use crate::wire::{
    be32, cstr, framed, law_frame_is_spelled, law_numbers_are_spelled, no_nul, sizable, spelled,
};

verus! {

/// Who the client says it is.
pub struct Credentials {
    pub username: String,
    pub password: Option<String>,
}

pub struct CredentialsView {
    pub username: Seq<char>,
    pub password: Option<Seq<char>>,
}

impl View for Credentials {
    type V = CredentialsView;

    open spec fn view(&self) -> CredentialsView {
        CredentialsView {
            username: self.username@,
            password: chars_of(self.password),
        }
    }
}

/// What the client waits for while the connection is set up.
pub enum Handshake<'a> {
    /// Any message of the setup.
    Setup,
    /// The server's challenge, the client's first SCRAM message being sent.
    Challenge(ServerFirst<'a>),
    /// The server's confirmation, the challenge being answered.
    Confirmation(ServerFinal),
    /// The server's word that the client is let in.
    Admission,
}

pub enum HandshakeView {
    Setup,
    Challenge(Session),
    Confirmation(Seq<u8>),
    Admission,
}

impl<'a> View for Handshake<'a> {
    type V = HandshakeView;

    open spec fn view(&self) -> HandshakeView {
        match *self {
            Handshake::Setup => HandshakeView::Setup,
            Handshake::Challenge(state) => HandshakeView::Challenge(session_of(state)),
            Handshake::Confirmation(state) => HandshakeView::Confirmation(signature_of(state)),
            Handshake::Admission => HandshakeView::Admission,
        }
    }
}

/// What a message asks of the client.
pub enum Step<'a> {
    /// Wait for the next message.
    Wait(Handshake<'a>),
    /// Send these bytes, then wait for the next message.
    Send(Vec<u8>, Handshake<'a>),
    /// Nothing: the connection is set up.
    Ready,
}

pub enum StepView {
    Wait(HandshakeView),
    Send(Seq<u8>, HandshakeView),
    Ready,
}

/// Why a connection could not be set up.
pub enum HandshakeError {
    /// The reason in words.
    Failed(String),
    Io(io::Error),
    Utf8(Utf8Error),
    Scram(scram::Error),
}

pub enum HandshakeErrorView {
    Failed(Seq<char>),
    Io(io::Error),
    Utf8(Utf8Error),
    Scram(scram::Error),
}

impl<'a> View for Step<'a> {
    type V = StepView;

    open spec fn view(&self) -> StepView {
        match *self {
            Step::Wait(next) => StepView::Wait(next@),
            Step::Send(bytes, next) => StepView::Send(bytes@, next@),
            Step::Ready => StepView::Ready,
        }
    }
}

impl View for HandshakeError {
    type V = HandshakeErrorView;

    open spec fn view(&self) -> HandshakeErrorView {
        match *self {
            HandshakeError::Failed(text) => HandshakeErrorView::Failed(text@),
            HandshakeError::Io(error) => HandshakeErrorView::Io(error),
            HandshakeError::Utf8(error) => HandshakeErrorView::Utf8(error),
            HandshakeError::Scram(error) => HandshakeErrorView::Scram(error),
        }
    }
}

/// What a step came to.
pub open spec fn outcome<'a>(r: Result<Step<'a>, HandshakeError>) -> Result<
    StepView,
    HandshakeErrorView,
> {
    match r {
        Ok(step) => Ok(step@),
        Err(error) => Err(error@),
    }
}

/// The one mechanism that the client speaks.
pub open spec fn mechanism() -> Seq<char> {
    "SCRAM-SHA-256"@
}

/// What a message says that offers these mechanisms.
pub open spec fn offered(mechanisms: Result<Vec<String>, io::Error>) -> Result<
    Seq<Seq<char>>,
    io::Error,
> {
    match mechanisms {
        Ok(list) => Ok(texts(list@)),
        Err(error) => Err(error),
    }
}

/// What is owed to an offer of mechanisms: the password to go on with, or the
/// reason why not.
pub open spec fn offer_taken(
    mechanisms: Result<Seq<Seq<char>>, io::Error>,
    who: CredentialsView,
) -> Result<Seq<char>, HandshakeErrorView> {
    match mechanisms {
        Err(error) => Err(HandshakeErrorView::Io(error)),
        Ok(offered) => {
            if !offered.contains(mechanism()) {
                Err(
                    HandshakeErrorView::Failed(
                        "our client supports only 'SCRAM-SHA-256' SASL auth protocol, but the server supports only "@
                            + debug_text(offered),
                    ),
                )
            } else {
                match who.password {
                    Some(password) => Ok(password),
                    None => Err(
                        HandshakeErrorView::Failed(
                            "password must be provided when server enforces SASL auth"@,
                        ),
                    ),
                }
            }
        },
    }
}

/// What the first answer of the exchange holds, with this nonce.
pub open spec fn opening_body(who: CredentialsView, nonce: Seq<char>) -> Seq<u8> {
    sasl_initial_body(mechanism(), encode_utf8(first_message(who.username, nonce)))
}

/// How the exchange opens when the server offers mechanisms.
pub open spec fn opening(
    mechanisms: Result<Seq<Seq<char>>, io::Error>,
    who: CredentialsView,
    nonce: Seq<char>,
) -> Result<StepView, HandshakeErrorView> {
    match offer_taken(mechanisms, who) {
        Err(error) => Err(error),
        Ok(password) => {
            if sizable(opening_body(who, nonce)) {
                Ok(
                    StepView::Send(
                        framed(0x70, opening_body(who, nonce)),
                        HandshakeView::Challenge(
                            Session { username: who.username, password, nonce },
                        ),
                    ),
                )
            } else {
                Err(
                    HandshakeErrorView::Io(
                        sasl_initial_flaw(
                            mechanism(),
                            encode_utf8(first_message(who.username, nonce)),
                        ),
                    ),
                )
            }
        },
    }
}

/// How the exchange goes on when the server sends its challenge.
pub open spec fn challenged(session: Session, data: Seq<u8>) -> Result<
    StepView,
    HandshakeErrorView,
> {
    let answer = challenge_answer(
        session.username,
        session.password,
        session.nonce,
        decode_utf8(legible_part(data)),
    );
    if !valid_utf8(data) {
        Err(HandshakeErrorView::Utf8(utf8_flaw(data)))
    } else if !challenge_readable(data) {
        Err(HandshakeErrorView::Scram(answer->Err_0))
    } else {
        match answer {
            Err(error) => Err(HandshakeErrorView::Scram(error)),
            Ok((answer, signature)) => {
                if sizable(encode_utf8(answer)) {
                    Ok(
                        StepView::Send(
                            framed(0x70, encode_utf8(answer)),
                            HandshakeView::Confirmation(signature),
                        ),
                    )
                } else {
                    Err(HandshakeErrorView::Io(sasl_flaw(encode_utf8(answer))))
                }
            },
        }
    }
}

/// How the exchange goes on when the server sends its confirmation. One that cannot
/// be read is taken for an empty one.
pub open spec fn confirmed(signature: Seq<u8>, data: Seq<u8>) -> Result<
    StepView,
    HandshakeErrorView,
> {
    let confirmation = if confirmation_readable(data) {
        decode_utf8(data)
    } else {
        ""@
    };
    if !valid_utf8(data) {
        Err(HandshakeErrorView::Utf8(utf8_flaw(data)))
    } else if !confirms(signature, confirmation) {
        Err(HandshakeErrorView::Scram(confirmation_flaw(signature, confirmation)))
    } else {
        Ok(StepView::Wait(HandshakeView::Admission))
    }
}

/// Whether a message asks for a kind of authentication that the client does not
/// have.
pub open spec fn asks_for_other_authentication(msg: MessageView) -> bool {
    ||| msg == MessageView::Signal(Signal::AuthenticationCleartextPassword)
    ||| msg == MessageView::Signal(Signal::AuthenticationGss)
    ||| msg == MessageView::Signal(Signal::AuthenticationKerberosV5)
    ||| msg == MessageView::Signal(Signal::AuthenticationMd5Password)
}

/// Whether the client has an answer to a message, if only an error.
pub open spec fn answerable(state: HandshakeView, msg: MessageView) -> bool {
    !(state is Setup && asks_for_other_authentication(msg))
}

/// What a message of the setup that opens no exchange asks of the client, if it
/// does not ask for other authentication.
pub open spec fn noted(msg: MessageView) -> Result<StepView, HandshakeErrorView>
    recommends
        !asks_for_other_authentication(msg),
{
    match msg {
        MessageView::Signal(Signal::ReadyForQuery) => Ok(StepView::Ready),
        MessageView::Signal(Signal::AuthenticationOk) => Ok(StepView::Wait(HandshakeView::Setup)),
        MessageView::Signal(Signal::ParameterStatus) => Ok(StepView::Wait(HandshakeView::Setup)),
        MessageView::Signal(Signal::BackendKeyData) => Ok(StepView::Wait(HandshakeView::Setup)),
        _ => Err(
            HandshakeErrorView::Failed(
                "Got unexpected message during while setting up connection: `"@ + message_name(msg)
                    + "`"@,
            ),
        ),
    }
}

/// What a message asks of a client that waits for a challenge.
pub open spec fn after_opening(session: Session, msg: MessageView) -> Result<
    StepView,
    HandshakeErrorView,
> {
    match msg {
        MessageView::AuthenticationSaslContinue(data) => challenged(session, data),
        _ => Err(
            HandshakeErrorView::Failed(
                "received unexpected message from server. Expected 'AuthenticationSaslContinue'."@,
            ),
        ),
    }
}

/// What a message asks of a client that waits for a confirmation.
pub open spec fn after_answer(signature: Seq<u8>, msg: MessageView) -> Result<
    StepView,
    HandshakeErrorView,
> {
    match msg {
        MessageView::AuthenticationSaslFinal(data) => confirmed(signature, data),
        _ => Err(
            HandshakeErrorView::Failed(
                "received unexpected message from server. Expected 'AuthenticationSaslFinal'."@,
            ),
        ),
    }
}

/// What a message asks of a client that waits to be let in.
pub open spec fn after_confirmation(msg: MessageView) -> Result<StepView, HandshakeErrorView> {
    match msg {
        MessageView::Signal(Signal::AuthenticationOk) => Ok(StepView::Wait(HandshakeView::Setup)),
        _ => Err(
            HandshakeErrorView::Failed(
                "received unexpected message from server. Expected 'AuthenticationOk'."@,
            ),
        ),
    }
}

/// What a message that is answerable asks of the client, the nonce being the one to
/// be used if an exchange opens.
pub open spec fn next_step(
    state: HandshakeView,
    who: CredentialsView,
    msg: MessageView,
    nonce: Seq<char>,
) -> Result<StepView, HandshakeErrorView>
    recommends
        answerable(state, msg),
{
    match state {
        HandshakeView::Setup => match msg {
            MessageView::AuthenticationSasl(mechanisms) => opening(mechanisms, who, nonce),
            _ => noted(msg),
        },
        HandshakeView::Challenge(session) => after_opening(session, msg),
        HandshakeView::Confirmation(signature) => after_answer(signature, msg),
        HandshakeView::Admission => after_confirmation(msg),
    }
}

/// Whether the mechanism that the client speaks is among those offered.
fn speaks_one_of(mechanisms: &Vec<String>) -> (found: bool)
    ensures
        found == texts(mechanisms@).contains(mechanism()),
{
    let mut i: usize = 0;
    while i < mechanisms.len()
        invariant
            i <= mechanisms.len(),
            forall|j: int| 0 <= j < i ==> texts(mechanisms@)[j] != mechanism(),
        decreases mechanisms.len() - i,
    {
        if same_text(mechanisms[i].as_str(), "SCRAM-SHA-256") {
            assert(texts(mechanisms@)[i as int] == mechanism());
            return true;
        }
        i = i + 1;
    }
    false
}

/// The password to open an exchange with, if the offer can be taken.
pub fn take_offer<'a>(
    mechanisms: Result<Vec<String>, io::Error>,
    who: &'a Credentials,
) -> (r: Result<&'a str, HandshakeError>)
    ensures
        match r {
            Ok(password) => offer_taken(offered(mechanisms), who@) == Ok::<_, HandshakeErrorView>(
                password@,
            ),
            Err(error) => offer_taken(offered(mechanisms), who@) == Err::<Seq<char>, _>(error@),
        },
{
    let offered = match mechanisms {
        Ok(offered) => offered,
        Err(error) => return Err(HandshakeError::Io(error)),
    };
    if !speaks_one_of(&offered) {
        return Err(
            HandshakeError::Failed(
                with_list(
                    "our client supports only 'SCRAM-SHA-256' SASL auth protocol, but the server supports only ",
                    &offered,
                ),
            ),
        );
    }
    match &who.password {
        Some(password) => Ok(password.as_str()),
        None => Err(
            HandshakeError::Failed(
                "password must be provided when server enforces SASL auth".to_owned(),
            ),
        ),
    }
}

/// Some nonce, for the steps that use none.
spec fn some_nonce() -> Seq<char> {
    Seq::new(24, |i: int| 'a')
}

proof fn lemma_mechanism_has_no_nul()
    ensures
        no_nul(mechanism()),
{
    reveal_strlit("SCRAM-SHA-256");
    is_ascii_chars_encode_utf8(mechanism());
}

/// The frame that opens an exchange with the client's first message.
pub fn first_answer(message: &str) -> (r: Result<Vec<u8>, io::Error>)
    ensures
        encodes(
            r,
            sizable(sasl_initial_body(mechanism(), encode_utf8(message@))),
            framed(0x70, sasl_initial_body(mechanism(), encode_utf8(message@))),
            sasl_initial_flaw(mechanism(), encode_utf8(message@)),
        ),
{
    proof {
        lemma_mechanism_has_no_nul();
    }
    sasl_initial_response("SCRAM-SHA-256", message.as_bytes())
}

/// Opens an exchange, if the server offers what the client speaks.
fn open_exchange<'a>(
    mechanisms: Result<Vec<String>, io::Error>,
    who: &'a Credentials,
) -> (r: Result<Step<'a>, HandshakeError>)
    ensures
        exists|nonce: Seq<char>|
            is_nonce(nonce) && outcome(r) == #[trigger] opening(offered(mechanisms), who@, nonce),
{
    let ghost offer = offered(mechanisms);
    let password = match take_offer(mechanisms, who) {
        Ok(password) => password,
        Err(error) => {
            let ghost any = some_nonce();
            assert(is_nonce(any) && opening(offer, who@, any) == Err::<StepView, _>(error@));
            return Err(error);
        },
    };
    let (state, message) = client_first(who.username.as_str(), password);
    let r = match first_answer(message.as_str()) {
        Ok(bytes) => Ok(Step::Send(bytes, Handshake::Challenge(state))),
        Err(error) => Err(HandshakeError::Io(error)),
    };
    assert(outcome(r) == opening(offer, who@, session_of(state).nonce));
    r
}

/// Whether a challenge goes on from the nonce that the client sent.
pub open spec fn goes_on_from(challenge: Seq<char>, nonce: Seq<char>) -> bool {
    ("r="@ + nonce).is_prefix_of(challenge)
}

/// Answers the server's challenge.
fn answer<'a>(state: ServerFirst<'a>, data: &Vec<u8>) -> (r: Result<Step<'a>, HandshakeError>)
    ensures
        outcome(r) == challenged(session_of(state), data@),
        r is Ok ==> goes_on_from(decode_utf8(data@), session_of(state).nonce),
{
    let challenge = match from_utf8(data.as_slice()) {
        Ok(challenge) => challenge,
        Err(error) => return Err(HandshakeError::Utf8(error)),
    };
    proof {
        encode_utf8_valid_utf8(challenge@);
        encode_utf8_decode_utf8(challenge@);
    }
    let part = legible(challenge);
    proof {
        encode_utf8_decode_utf8(part@);
    }
    let (next, message) = match answer_challenge(state, part) {
        Ok(answered) => answered,
        Err(error) => return Err(HandshakeError::Scram(error)),
    };
    match sasl_response(message.as_str().as_bytes()) {
        Ok(bytes) => Ok(Step::Send(bytes, Handshake::Confirmation(next))),
        Err(error) => Err(HandshakeError::Io(error)),
    }
}

/// Takes the server's confirmation.
fn confirm<'a>(state: ServerFinal, data: &Vec<u8>) -> (r: Result<Step<'a>, HandshakeError>)
    ensures
        outcome(r) == confirmed(signature_of(state), data@),
{
    let confirmation = match from_utf8(data.as_slice()) {
        Ok(confirmation) => confirmation,
        Err(error) => return Err(HandshakeError::Utf8(error)),
    };
    proof {
        encode_utf8_valid_utf8(confirmation@);
        encode_utf8_decode_utf8(confirmation@);
        reveal_strlit("");
    }
    let legible = if can_read_confirmation(confirmation) {
        confirmation
    } else {
        ""
    };
    match check_confirmation(state, legible) {
        Ok(()) => Ok(Step::Wait(Handshake::Admission)),
        Err(error) => Err(HandshakeError::Scram(error)),
    }
}

/// The error for a message that has no place in the setup.
fn out_of_place(msg: &Message) -> (error: HandshakeError)
    ensures
        error@ == HandshakeErrorView::Failed(
            "Got unexpected message during while setting up connection: `"@ + message_name(msg@)
                + "`"@,
        ),
{
    let mut text = "Got unexpected message during while setting up connection: `".to_owned();
    text.append(get_msg_name(msg));
    text.append("`");
    HandshakeError::Failed(text)
}

/// Takes a message of the setup that opens no exchange.
fn note<'a>(msg: &Message) -> (r: Result<Step<'a>, HandshakeError>)
    requires
        !asks_for_other_authentication(msg@),
    ensures
        outcome(r) == noted(msg@),
{
    match msg {
        Message::Signal(Signal::ReadyForQuery) => Ok(Step::Ready),
        Message::Signal(Signal::AuthenticationOk) => Ok(Step::Wait(Handshake::Setup)),
        Message::Signal(Signal::ParameterStatus) => Ok(Step::Wait(Handshake::Setup)),
        Message::Signal(Signal::BackendKeyData) => Ok(Step::Wait(Handshake::Setup)),
        _ => Err(out_of_place(msg)),
    }
}

/// The error for a message other than the one that an exchange waits for.
fn not_expected(text: &str) -> (error: HandshakeError)
    ensures
        error@ == HandshakeErrorView::Failed(text@),
{
    HandshakeError::Failed(text.to_owned())
}

/// What a step comes to, with some nonce. A challenge that another nonce gave rise
/// to is never answered.
pub open spec fn is_step<'a>(
    state: Handshake<'a>,
    who: &'a Credentials,
    msg: Message,
    r: Result<Step<'a>, HandshakeError>,
) -> bool {
    &&& exists|nonce: Seq<char>|
        is_nonce(nonce) && outcome(r) == #[trigger] next_step(state@, who@, msg@, nonce)
    &&& state@ matches HandshakeView::Challenge(session) ==> r is Ok ==> (
    msg@ matches MessageView::AuthenticationSaslContinue(data) && goes_on_from(
        decode_utf8(data),
        session.nonce,
    ))
}

impl<'a> Handshake<'a> {
    /// Whether the client has an answer to a message, if only an error.
    pub fn can_answer(&self, msg: &Message) -> (can: bool)
        ensures
            can == answerable(self@, msg@),
    {
        match (self, msg) {
            (Handshake::Setup, Message::Signal(signal)) => match signal {
                Signal::AuthenticationCleartextPassword => false,
                Signal::AuthenticationGss => false,
                Signal::AuthenticationKerberosV5 => false,
                Signal::AuthenticationMd5Password => false,
                _ => true,
            },
            _ => true,
        }
    }

    /// Takes the next message of the server.
    pub fn step(self, who: &'a Credentials, msg: Message) -> (r: Result<Step<'a>, HandshakeError>)
        requires
            answerable(self@, msg@),
        ensures
            is_step(self, who, msg, r),
    {
        let ghost any = some_nonce();
        let r = match self {
            Handshake::Setup => match msg {
                Message::AuthenticationSasl(mechanisms) => {
                    let r = open_exchange(mechanisms, who);
                    proof {
                        let nonce = choose|nonce: Seq<char>|
                            is_nonce(nonce) && outcome(r) == #[trigger] opening(
                                offered(mechanisms),
                                who@,
                                nonce,
                            );
                        assert(next_step(self@, who@, msg@, nonce) == opening(
                            offered(mechanisms),
                            who@,
                            nonce,
                        ));
                    }
                    return r;
                },
                _ => note(&msg),
            },
            Handshake::Challenge(state) => match msg {
                Message::AuthenticationSaslContinue(data) => answer(state, &data),
                _ => Err(
                    not_expected(
                        "received unexpected message from server. Expected 'AuthenticationSaslContinue'.",
                    ),
                ),
            },
            Handshake::Confirmation(state) => match msg {
                Message::AuthenticationSaslFinal(data) => confirm(state, &data),
                _ => Err(
                    not_expected(
                        "received unexpected message from server. Expected 'AuthenticationSaslFinal'.",
                    ),
                ),
            },
            Handshake::Admission => match msg {
                Message::Signal(Signal::AuthenticationOk) => Ok(Step::Wait(Handshake::Setup)),
                _ => Err(
                    not_expected(
                        "received unexpected message from server. Expected 'AuthenticationOk'.",
                    ),
                ),
            },
        };
        assert(is_nonce(any) && outcome(r) == next_step(self@, who@, msg@, any));
        r
    }

    /// `step`, if the client has an answer.
    pub fn checked_step(self, who: &'a Credentials, msg: Message) -> (r: Option<
        Result<Step<'a>, HandshakeError>,
    >)
        ensures
            match r {
                Some(outcome) => answerable(self@, msg@) && is_step(self, who, msg, outcome),
                None => !answerable(self@, msg@),
            },
    {
        if self.can_answer(&msg) {
            Some(self.step(who, msg))
        } else {
            None
        }
    }
}

/// The client goes on to wait for another message, in the state `next`.
pub open spec fn moves(
    state: HandshakeView,
    who: CredentialsView,
    msg: MessageView,
    nonce: Seq<char>,
    next: HandshakeView,
) -> bool {
    match next_step(state, who, msg, nonce) {
        Ok(StepView::Wait(after)) => after == next,
        Ok(StepView::Send(_, after)) => after == next,
        _ => false,
    }
}

/// A connection is ready only when the server says so, and never in the middle
/// of a SASL exchange.
pub proof fn law_ready_only_outside_an_exchange(
    state: HandshakeView,
    who: CredentialsView,
    msg: MessageView,
    nonce: Seq<char>,
)
    requires
        answerable(state, msg),
    ensures
        next_step(state, who, msg, nonce) == Ok::<_, HandshakeErrorView>(StepView::Ready) <==> (
        state is Setup && msg == MessageView::Signal(Signal::ReadyForQuery)),
{
}

/// Outside an exchange the client sends something only to a server that offers
/// mechanisms, and never its password to one that asks for it in another way.
pub proof fn law_only_an_offer_is_answered(
    who: CredentialsView,
    msg: MessageView,
    nonce: Seq<char>,
)
    requires
        answerable(HandshakeView::Setup, msg),
    ensures
        next_step(HandshakeView::Setup, who, msg, nonce) matches Ok(StepView::Send(_, _))
            ==> msg is AuthenticationSasl,
{
}

/// Once an exchange is open it ends well in one way only: the server sends its
/// challenge, the client answers it with the user's password, the server shows
/// the signature that belongs to the answer, and then lets the client in.
pub proof fn law_exchange_ends_well_in_one_way(
    who: CredentialsView,
    mechanisms: Result<Seq<Seq<char>>, io::Error>,
    nonce: Seq<char>,
    first: MessageView,
    second: MessageView,
    third: MessageView,
    states: Seq<HandshakeView>,
)
    requires
        states.len() == 4,
        moves(
            HandshakeView::Setup,
            who,
            MessageView::AuthenticationSasl(mechanisms),
            nonce,
            states[0],
        ),
        moves(states[0], who, first, nonce, states[1]),
        moves(states[1], who, second, nonce, states[2]),
        moves(states[2], who, third, nonce, states[3]),
    ensures
        mechanisms matches Ok(offered) && offered.contains(mechanism()),
        who.password is Some,
        first is AuthenticationSaslContinue,
        second is AuthenticationSaslFinal,
        third == MessageView::Signal(Signal::AuthenticationOk),
        states[3] == HandshakeView::Setup,
        ({
            let challenge = decode_utf8(first->AuthenticationSaslContinue_0);
            let confirmation = decode_utf8(second->AuthenticationSaslFinal_0);
            &&& challenge_answer(who.username, who.password->0, nonce, challenge) is Ok
            &&& confirms(
                (challenge_answer(who.username, who.password->0, nonce, challenge)->Ok_0).1,
                confirmation,
            )
        }),
{
    let session = Session { username: who.username, password: who.password->0, nonce };
    assert(states[0] == HandshakeView::Challenge(session));
    assert(after_opening(session, first) is Ok);
    let data = first->AuthenticationSaslContinue_0;
    assert(challenged(session, data) is Ok && legible_part(data) == data);
    let signature = (challenge_answer(
        who.username,
        who.password->0,
        nonce,
        decode_utf8(data),
    )->Ok_0).1;
    assert(states[1] == HandshakeView::Confirmation(signature));
    assert(after_answer(signature, second) is Ok);
    lemma_nothing_confirms_nothing(signature);
    assert(states[2] == HandshakeView::Admission);
}

proof fn lemma_nothing_confirms_nothing(signature: Seq<u8>)
    ensures
        !confirms(signature, ""@),
{
    reveal_strlit("");
    reveal_strlit("v=");
}

/// A server that shows the signature in Base64 is believed.
pub proof fn law_signature_is_believed(signature: Seq<u8>)
    ensures
        confirmed(signature, encode_utf8(confirmation_of(signature))) == Ok::<_, HandshakeErrorView>(
            StepView::Wait(HandshakeView::Admission),
        ),
{
    let confirmation = confirmation_of(signature);
    encode_utf8_valid_utf8(confirmation);
    encode_utf8_decode_utf8(confirmation);
    lemma_prefix_can_be_read(confirmation);
}

/// A server that shows another signature, in whatever form, is not believed.
pub proof fn law_other_signature_is_not_believed(
    signature: Seq<u8>,
    other: Seq<u8>,
    confirmation: Seq<char>,
)
    requires
        confirms(other, confirmation),
        other != signature,
    ensures
        confirmed(signature, encode_utf8(confirmation)) matches Err(HandshakeErrorView::Scram(_)),
{
    encode_utf8_valid_utf8(confirmation);
    encode_utf8_decode_utf8(confirmation);
    reveal_strlit("v=");
    let shown = "v="@ + base64_text(other);
    assert("v="@ =~= shown.subrange(0, 2));
    assert(shown.subrange(0, 2) =~= confirmation.subrange(0, 2)) by {
        assert forall|i: int| 0 <= i < 2 implies shown[i] == confirmation[i] by {
            assert(confirmation.subrange(0, shown.len() as int)[i] == confirmation[i]);
        }
    }
    lemma_prefix_can_be_read(confirmation);
    if confirms(signature, confirmation) {
        law_padding_hides_nothing(signature, other, confirmation.skip(2));
    }
}

/// A confirmation that begins with `v=` can be read.
proof fn lemma_prefix_can_be_read(confirmation: Seq<char>)
    requires
        "v="@.is_prefix_of(confirmation),
    ensures
        confirmation_readable(encode_utf8(confirmation)),
{
    reveal_strlit("v=");
    let data = encode_utf8(confirmation);
    let tail = confirmation.drop_first();
    assert(confirmation.subrange(0, 2)[0] == 'v' && confirmation.subrange(0, 2)[1] == '=');
    encode_utf8_valid_utf8(confirmation);
    encode_utf8_valid_utf8(tail);
    encode_utf8_first_scalar(confirmation);
    encode_utf8_first_scalar(tail);
    assert(pop_first_scalar(data) =~= encode_utf8(tail));
    assert(is_char_boundary(encode_utf8(tail), 1)) by {
        let rest = tail.drop_first();
        encode_utf8_valid_utf8(rest);
        assert(pop_first_scalar(encode_utf8(tail)) =~= encode_utf8(rest));
        assert(is_char_boundary(encode_utf8(rest), 0));
    }
}

/// The client sends nothing to a server that asks for SASL unless it has a
/// password and the server offers the one mechanism that the client speaks.
pub proof fn law_no_exchange_without_password_and_mechanism(
    who: CredentialsView,
    mechanisms: Result<Seq<Seq<char>>, io::Error>,
    nonce: Seq<char>,
)
    requires
        who.password is None || mechanisms is Err || !(mechanisms->Ok_0).contains(mechanism()),
    ensures
        next_step(
            HandshakeView::Setup,
            who,
            MessageView::AuthenticationSasl(mechanisms),
            nonce,
        ) is Err,
{
}

/// What the client sends while these messages set a connection up, if they do.
pub open spec fn connected(
    state: HandshakeView,
    who: CredentialsView,
    msgs: Seq<MessageView>,
    nonce: Seq<char>,
) -> Option<Seq<u8>>
    decreases msgs.len(),
{
    if msgs.len() == 0 || !answerable(state, msgs[0]) {
        None
    } else {
        match next_step(state, who, msgs[0], nonce) {
            Ok(StepView::Wait(next)) => connected(next, who, msgs.drop_first(), nonce),
            Ok(StepView::Send(bytes, next)) => match connected(
                next,
                who,
                msgs.drop_first(),
                nonce,
            ) {
                Some(sent) => Some(bytes + sent),
                None => None,
            },
            Ok(StepView::Ready) => Some(Seq::empty()),
            Err(_) => None,
        }
    }
}

/// A message that the client only takes note of while a connection is set up.
pub open spec fn is_report(msg: MessageView) -> bool {
    ||| msg == MessageView::Signal(Signal::AuthenticationOk)
    ||| msg == MessageView::Signal(Signal::ParameterStatus)
    ||| msg == MessageView::Signal(Signal::BackendKeyData)
}

/// A server that asks for no authentication is answered nothing: whatever it
/// reports first, its word that it is ready sets the connection up.
pub proof fn law_trusting_server_is_answered_nothing(
    who: CredentialsView,
    reports: Seq<MessageView>,
    nonce: Seq<char>,
)
    requires
        forall|i: int| 0 <= i < reports.len() ==> is_report(#[trigger] reports[i]),
    ensures
        connected(
            HandshakeView::Setup,
            who,
            reports.push(MessageView::Signal(Signal::ReadyForQuery)),
            nonce,
        ) == Some(Seq::<u8>::empty()),
    decreases reports.len(),
{
    let msgs = reports.push(MessageView::Signal(Signal::ReadyForQuery));
    if reports.len() > 0 {
        let rest = reports.drop_first();
        assert(msgs.drop_first() =~= rest.push(MessageView::Signal(Signal::ReadyForQuery)));
        assert(is_report(reports[0]));
        law_trusting_server_is_answered_nothing(who, rest, nonce);
    }
}

/// The shortest setup, byte for byte: the server lets the client in and says that
/// it is ready.
pub proof fn law_two_frames_set_a_connection_up(
    who: CredentialsView,
    status: u8,
    nonce: Seq<char>,
)
    ensures
        connected(
            HandshakeView::Setup,
            who,
            messages(framed(0x52, be32(0)) + framed(0x5a, seq![status])),
            nonce,
        ) == Some(Seq::<u8>::empty()),
{
    let admission = framed(0x52, be32(0));
    let readiness = framed(0x5a, seq![status]);
    let ok = MessageView::Signal(Signal::AuthenticationOk);
    let ready = MessageView::Signal(Signal::ReadyForQuery);
    law_admission_and_readiness_arrive(status, readiness);
    law_admission_and_readiness_arrive(status, Seq::empty());
    assert(readiness + Seq::<u8>::empty() =~= readiness);
    law_one_message_at_a_time(admission + readiness, ok, readiness);
    law_one_message_at_a_time(readiness, ready, Seq::empty());
    assert(messages(Seq::empty()) =~= seq![]);
    assert(messages(admission + readiness) =~= seq![ok].push(ready));
    law_trusting_server_is_answered_nothing(who, seq![ok], nonce);
}

/// A server that asks for SASL, offers the mechanism that the client speaks,
/// sends a challenge that can be answered and shows the signature that belongs
/// to the answer ends up connected. It is sent the opening of the exchange and
/// the answer to its challenge, and nothing else.
pub proof fn law_exchange_connects(
    who: CredentialsView,
    offer: Seq<Seq<char>>,
    nonce: Seq<char>,
    challenge: Seq<u8>,
    answer: Seq<char>,
    signature: Seq<u8>,
    confirmation: Seq<u8>,
    reports: Seq<MessageView>,
)
    requires
        offer.contains(mechanism()),
        who.password is Some,
        sizable(opening_body(who, nonce)),
        valid_utf8(challenge) && challenge_readable(challenge),
        challenge_answer(who.username, who.password->0, nonce, decode_utf8(challenge)) == Ok::<
            _,
            scram::Error,
        >((answer, signature)),
        sizable(encode_utf8(answer)),
        valid_utf8(confirmation) && confirmation_readable(confirmation),
        confirms(signature, decode_utf8(confirmation)),
        forall|i: int| 0 <= i < reports.len() ==> is_report(#[trigger] reports[i]),
    ensures
        connected(
            HandshakeView::Setup,
            who,
            seq![
                MessageView::AuthenticationSasl(Ok(offer)),
                MessageView::AuthenticationSaslContinue(challenge),
                MessageView::AuthenticationSaslFinal(confirmation),
                MessageView::Signal(Signal::AuthenticationOk),
            ] + reports.push(MessageView::Signal(Signal::ReadyForQuery)),
            nonce,
        ) == Some(
            framed(0x70, opening_body(who, nonce)) + framed(0x70, encode_utf8(answer)),
        ),
{
    let tail = reports.push(MessageView::Signal(Signal::ReadyForQuery));
    let m0 = MessageView::AuthenticationSasl(Ok(offer));
    let m1 = MessageView::AuthenticationSaslContinue(challenge);
    let m2 = MessageView::AuthenticationSaslFinal(confirmation);
    let m3 = MessageView::Signal(Signal::AuthenticationOk);
    let msgs = seq![m0, m1, m2, m3] + tail;
    law_trusting_server_is_answered_nothing(who, reports, nonce);
    let session = Session { username: who.username, password: who.password->0, nonce };
    let s3 = seq![m3] + tail;
    let s2 = seq![m2] + s3;
    let s1 = seq![m1] + s2;
    assert(s3.drop_first() =~= tail);
    assert(s2.drop_first() =~= s3);
    assert(s1.drop_first() =~= s2);
    assert(msgs.drop_first() =~= s1);
    assert(connected(HandshakeView::Admission, who, s3, nonce) == Some(Seq::<u8>::empty()));
    assert(connected(HandshakeView::Confirmation(signature), who, s2, nonce) == Some(
        Seq::<u8>::empty(),
    ));
    let reply = framed(0x70, encode_utf8(answer));
    assert(reply + Seq::<u8>::empty() =~= reply);
    assert(connected(HandshakeView::Challenge(session), who, s1, nonce) == Some(reply));
}

proof fn lemma_encode_concat(a: Seq<char>, b: Seq<char>)
    ensures
        encode_utf8(a + b) == encode_utf8(a) + encode_utf8(b),
    decreases a.len(),
{
    if a.len() == 0 {
        assert(a + b =~= b);
        assert(encode_utf8(a) + encode_utf8(b) =~= encode_utf8(b));
    } else {
        assert((a + b).drop_first() =~= a.drop_first() + b);
        lemma_encode_concat(a.drop_first(), b);
        assert(encode_utf8(a + b) =~= encode_utf8(a) + encode_utf8(b));
    }
}

proof fn lemma_mechanism_bytes()
    ensures
        encode_utf8("SCRAM-SHA-256"@) == seq![
            0x53u8,
            0x43,
            0x52,
            0x41,
            0x4d,
            0x2d,
            0x53,
            0x48,
            0x41,
            0x2d,
            0x32,
            0x35,
            0x36,
        ],
{
    reveal_strlit("SCRAM-SHA-256");
    is_ascii_chars_encode_utf8("SCRAM-SHA-256"@);
    assert(encode_utf8("SCRAM-SHA-256"@) =~= seq![
        0x53u8,
        0x43,
        0x52,
        0x41,
        0x4d,
        0x2d,
        0x53,
        0x48,
        0x41,
        0x2d,
        0x32,
        0x35,
        0x36,
    ]);
}

proof fn lemma_first_message_len(username: Seq<char>, nonce: Seq<char>)
    requires
        nonce.len() == 24,
        forall|i: int| 0 <= i < nonce.len() ==> '!' <= #[trigger] nonce[i] <= '}',
    ensures
        encode_utf8("n,,n="@ + username + ",r="@ + nonce).len() == encode_utf8(username).len() + 32,
{
    lemma_encode_concat("n,,n="@ + username + ",r="@, nonce);
    lemma_encode_concat("n,,n="@ + username, ",r="@);
    lemma_encode_concat("n,,n="@, username);
    reveal_strlit("n,,n=");
    reveal_strlit(",r=");
    is_ascii_chars_encode_utf8("n,,n="@);
    is_ascii_chars_encode_utf8(",r="@);
    is_ascii_chars_encode_utf8(nonce);
}

/// The first answer of an exchange, byte for byte: the tag `p`, the length, the name
/// `SCRAM-SHA-256` ended by a zero byte, and behind its length the client's first
/// message, which names the user and carries the nonce.
pub open spec fn opening_spelled(username: Seq<char>, nonce: Seq<char>) -> Seq<u8> {
    let data = encode_utf8("n,,n="@ + username + ",r="@ + nonce);
    seq![0x70u8] + spelled(data.len() + 22) + seq![
        0x53u8,
        0x43,
        0x52,
        0x41,
        0x4d,
        0x2d,
        0x53,
        0x48,
        0x41,
        0x2d,
        0x32,
        0x35,
        0x36,
        0,
    ] + spelled(data.len()) + data
}

proof fn lemma_opening_is_spelled(who: CredentialsView, nonce: Seq<char>)
    requires
        is_nonce(nonce),
        encode_utf8(who.username).len() + 54 <= 0x7fff_ffff,
    ensures
        framed(0x70, opening_body(who, nonce)) == opening_spelled(who.username, nonce),
{
    let data = encode_utf8("n,,n="@ + who.username + ",r="@ + nonce);
    let body = opening_body(who, nonce);
    lemma_mechanism_bytes();
    lemma_first_message_len(who.username, nonce);
    law_numbers_are_spelled(data.len() as int);
    assert(body.len() == data.len() + 18);
    law_frame_is_spelled(0x70, body);
    assert(framed(0x70, body) =~= opening_spelled(who.username, nonce));
}

/// An offer is answered if and only if `SCRAM-SHA-256` is among the mechanisms, the
/// user has a password and the user's name is not too long. The answer names that
/// mechanism and carries the user's name and the nonce of the exchange that it opens,
/// and the exchange goes on with the user's name, password and that nonce. Otherwise
/// the client says in words what is missing.
pub proof fn law_offer_is_answered<'a>(
    who: &'a Credentials,
    list: Vec<String>,
    r: Result<Step<'a>, HandshakeError>,
)
    requires
        is_step(Handshake::Setup, who, Message::AuthenticationSasl(Ok(list)), r),
    ensures
        ({
            let spoken = exists|i: int| 0 <= i < list@.len() && (#[trigger] list@[i])@ == "SCRAM-SHA-256"@;
            if !spoken {
                r matches Err(HandshakeError::Failed(text)) && text@
                    == "our client supports only 'SCRAM-SHA-256' SASL auth protocol, but the server supports only "@
                    + debug_text(list@.map_values(|s: String| s@))
            } else if who.password is None {
                r matches Err(HandshakeError::Failed(text)) && text@
                    == "password must be provided when server enforces SASL auth"@
            } else if encode_utf8(who.username@).len() + 54 > 0x7fff_ffff {
                r matches Err(HandshakeError::Io(_))
            } else {
                &&& r matches Ok(Step::Send(bytes, Handshake::Challenge(state)))
                &&& session_of(state).username == who.username@
                &&& session_of(state).password == who.password->0@
                &&& session_of(state).nonce.len() == 24
                &&& bytes@ == opening_spelled(who.username@, session_of(state).nonce)
            }
        }),
{
    let msg = Message::AuthenticationSasl(Ok(list));
    let nonce = choose|nonce: Seq<char>|
        is_nonce(nonce) && outcome(r) == #[trigger] next_step(
            HandshakeView::Setup,
            who@,
            msg@,
            nonce,
        );
    let offer = list@.map_values(|s: String| s@);
    assert(msg@ == MessageView::AuthenticationSasl(Ok(offer)));
    assert(outcome(r) == opening(Ok(offer), who@, nonce));
    let spoken = exists|i: int| 0 <= i < list@.len() && (#[trigger] list@[i])@ == "SCRAM-SHA-256"@;
    if spoken {
        let i = choose|i: int| 0 <= i < list@.len() && (#[trigger] list@[i])@ == "SCRAM-SHA-256"@;
        assert(offer[i] == "SCRAM-SHA-256"@);
    } else if offer.contains("SCRAM-SHA-256"@) {
        let i = choose|i: int| 0 <= i < offer.len() && offer[i] == "SCRAM-SHA-256"@;
        assert(list@[i]@ == "SCRAM-SHA-256"@);
    }
    assert(offer.contains("SCRAM-SHA-256"@) == spoken);
    if spoken && who.password is Some {
        lemma_first_message_len(who.username@, nonce);
        lemma_mechanism_bytes();
        law_numbers_are_spelled(0);
        assert(opening_body(who@, nonce).len() == encode_utf8(who.username@).len() + 50);
        if encode_utf8(who.username@).len() + 54 <= 0x7fff_ffff {
            lemma_opening_is_spelled(who@, nonce);
        }
    }
}

/// The first answer of an exchange names a mechanism that the server offered: what
/// can be read back from it is that name, and behind it the length and the bytes of
/// the first message.
pub proof fn law_opening_names_the_mechanism(username: Seq<char>, nonce: Seq<char>)
    requires
        encode_utf8("n,,n="@ + username + ",r="@ + nonce).len() + 22 <= 0x7fff_ffff,
    ensures
        ({
            let bytes = opening_spelled(username, nonce);
            let data = encode_utf8("n,,n="@ + username + ",r="@ + nonce);
            &&& leading_text(bytes.skip(5)) matches Some((name, rest))
            &&& name == "SCRAM-SHA-256"@
            &&& rest == spelled(data.len()) + data
            &&& bytes.len() == data.len() + 23
        }),
{
    let bytes = opening_spelled(username, nonce);
    let data = encode_utf8("n,,n="@ + username + ",r="@ + nonce);
    lemma_mechanism_bytes();
    lemma_mechanism_has_no_nul();
    assert(bytes.skip(5) =~= cstr("SCRAM-SHA-256"@) + (spelled(data.len()) + data));
    law_text_read_back("SCRAM-SHA-256"@, spelled(data.len()) + data);
}

/// An offer that could not be read is the error that reading it gave.
pub proof fn law_unreadable_offer_is_an_error<'a>(
    who: &'a Credentials,
    error: io::Error,
    r: Result<Step<'a>, HandshakeError>,
)
    requires
        is_step(Handshake::Setup, who, Message::AuthenticationSasl(Err(error)), r),
    ensures
        r == Err::<Step<'a>, _>(HandshakeError::Io(error)),
{
}

/// What an offer of mechanisms comes to: the user's password if the client can go on,
/// and otherwise the reason in words, or the error that reading the offer gave.
pub proof fn law_offer_asks_for_the_password(
    offer: Seq<Seq<char>>,
    error: io::Error,
    who: CredentialsView,
)
    ensures
        offer_taken(Err(error), who) == Err::<Seq<char>, _>(HandshakeErrorView::Io(error)),
        offer_taken(Ok(offer), who) == (if !offer.contains("SCRAM-SHA-256"@) {
            Err::<Seq<char>, _>(
                HandshakeErrorView::Failed(
                    "our client supports only 'SCRAM-SHA-256' SASL auth protocol, but the server supports only "@
                        + debug_text(offer),
                ),
            )
        } else if let Some(password) = who.password {
            Ok(password)
        } else {
            Err(
                HandshakeErrorView::Failed(
                    "password must be provided when server enforces SASL auth"@,
                ),
            )
        }),
{
}

/// A challenge of three fields or more is answered with what the user's name, the password
/// and the nonce of the exchange give for it, and the signature that belongs to that
/// answer is what is expected then. A challenge that cannot be answered is the error
/// that says why.
pub proof fn law_challenge_is_answered<'a>(
    state: ServerFirst<'a>,
    who: &'a Credentials,
    data: Vec<u8>,
    fields: Seq<Seq<u8>>,
    more: Seq<u8>,
    r: Result<Step<'a>, HandshakeError>,
)
    requires
        is_step(Handshake::Challenge(state), who, Message::AuthenticationSaslContinue(data), r),
        fields.len() == 3,
        forall|i: int|
            0 <= i < 3 ==> (#[trigger] fields[i]).len() >= 2 && !fields[i].contains(0x2c),
        data@ == fields[0] + seq![0x2cu8] + fields[1] + seq![0x2cu8] + fields[2] + more,
        more.len() > 0 ==> more[0] == 0x2c,
        valid_utf8(data@),
    ensures
        ({
            let session = session_of(state);
            match challenge_answer(
                session.username,
                session.password,
                session.nonce,
                decode_utf8(data@),
            ) {
                Ok((answer, signature)) => {
                    let bytes = encode_utf8(answer);
                    if bytes.len() + 4 <= 0x7fff_ffff {
                        &&& r matches Ok(Step::Send(sent, Handshake::Confirmation(next)))
                        &&& sent@ == seq![0x70u8] + spelled(bytes.len() + 4) + bytes
                        &&& signature_of(next) == signature
                        &&& ("r="@ + session.nonce).is_prefix_of(decode_utf8(data@))
                    } else {
                        r matches Err(HandshakeError::Io(_))
                    }
                },
                Err(error) => r == Err::<Step<'a>, _>(HandshakeError::Scram(error)),
            }
        }),
{
    lemma_three_fields_can_be_read(fields, more, data@);
    let session = session_of(state);
    let answer = challenge_answer(
        session.username,
        session.password,
        session.nonce,
        decode_utf8(data@),
    );
    assert(outcome(r) == challenged(session, data@));
    if let Ok((answer, signature)) = answer {
        if encode_utf8(answer).len() + 4 <= 0x7fff_ffff {
            law_frame_is_spelled(0x70, encode_utf8(answer));
        }
    }
}

/// What is no text is no challenge and no confirmation.
pub proof fn law_exchange_is_in_text<'a>(
    first: ServerFirst<'a>,
    last: ServerFinal,
    who: &'a Credentials,
    data: Vec<u8>,
    r: Result<Step<'a>, HandshakeError>,
)
    requires
        !valid_utf8(data@),
        is_step(Handshake::Challenge(first), who, Message::AuthenticationSaslContinue(data), r)
            || is_step(
            Handshake::Confirmation(last),
            who,
            Message::AuthenticationSaslFinal(data),
            r,
        ),
    ensures
        r == Err::<Step<'a>, _>(HandshakeError::Utf8(utf8_flaw(data@))),
{
}

/// So many equal signs.
pub open spec fn equal_signs(count: nat) -> Seq<char> {
    Seq::new(count, |i: int| '=')
}

/// A confirmation lets the exchange go on if and only if it is `v=` and the signature
/// that was expected in Base64, with as many `=` behind it as fill it up or fewer.
pub proof fn law_confirmation_shows_the_signature<'a>(
    state: ServerFinal,
    who: &'a Credentials,
    data: Vec<u8>,
    r: Result<Step<'a>, HandshakeError>,
)
    requires
        is_step(Handshake::Confirmation(state), who, Message::AuthenticationSaslFinal(data), r),
        valid_utf8(data@),
    ensures
        ({
            let signature = signature_of(state);
            let good = exists|count: nat|
                count <= (3 - signature.len() % 3) % 3 && decode_utf8(data@) == seq!['v', '=']
                    + base64_text(signature) + #[trigger] equal_signs(count);
            if good {
                r matches Ok(Step::Wait(Handshake::Admission))
            } else {
                r matches Err(HandshakeError::Scram(_))
            }
        }),
{
    let signature = signature_of(state);
    let text = decode_utf8(data@);
    let bare = "v="@ + base64_text(signature);
    let whole = confirmation_of(signature);
    reveal_strlit("v=");
    assert("v="@ =~= seq!['v', '=']);
    law_text_spells_the_bits(signature);
    lemma_nothing_confirms_nothing(signature);
    decode_utf8_encode_utf8(data@);
    let most = whole.len() - bare.len();
    assert(most == (3 - signature.len() % 3) % 3);
    if confirms(signature, text) {
        let count = (text.len() - bare.len()) as nat;
        let padding = equal_signs(count);
        assert forall|i: int| 0 <= i < text.len() implies text[i] == (bare + padding)[i] by {
            assert(whole.subrange(0, text.len() as int)[i] == text[i]);
        }
        assert(text =~= seq!['v', '='] + base64_text(signature) + padding);
    }
    if exists|count: nat|
        count <= (3 - signature.len() % 3) % 3 && text == seq!['v', '='] + base64_text(signature)
            + #[trigger] equal_signs(count) {
        let count = choose|count: nat|
            count <= (3 - signature.len() % 3) % 3 && text == seq!['v', '='] + base64_text(
                signature,
            ) + #[trigger] equal_signs(count);
        assert(bare =~= text.subrange(0, bare.len() as int));
        assert(text =~= whole.subrange(0, text.len() as int));
        assert("v="@ =~= text.subrange(0, 2));
        lemma_prefix_can_be_read(text);
    }
}

/// Once the signature was shown, only the server's word that the client is let in goes
/// on with the setup.
pub proof fn law_admission_follows<'a>(
    who: &'a Credentials,
    msg: Message,
    r: Result<Step<'a>, HandshakeError>,
)
    requires
        is_step(Handshake::Admission, who, msg, r),
    ensures
        if msg == Message::Signal(Signal::AuthenticationOk) {
            r matches Ok(Step::Wait(Handshake::Setup))
        } else {
            r matches Err(HandshakeError::Failed(text)) && text@
                == "received unexpected message from server. Expected 'AuthenticationOk'."@
        },
{
}

/// In the middle of an exchange every message but the one that is due ends the setup,
/// in words that name the one that was due.
pub proof fn law_exchange_keeps_its_order<'a>(
    first: ServerFirst<'a>,
    last: ServerFinal,
    who: &'a Credentials,
    msg: Message,
    r: Result<Step<'a>, HandshakeError>,
)
    ensures
        is_step(Handshake::Challenge(first), who, msg, r) && !(
        msg is AuthenticationSaslContinue) ==> (r matches Err(HandshakeError::Failed(text))
            && text@
            == "received unexpected message from server. Expected 'AuthenticationSaslContinue'."@),
        is_step(Handshake::Confirmation(last), who, msg, r) && !(
        msg is AuthenticationSaslFinal) ==> (r matches Err(HandshakeError::Failed(text)) && text@
            == "received unexpected message from server. Expected 'AuthenticationSaslFinal'."@),
{
}

/// Outside an exchange the client is ready when the server says so, takes note of three
/// reports, and stops at everything else that is no offer, naming it.
pub proof fn law_setup_takes_note<'a>(
    who: &'a Credentials,
    msg: Message,
    r: Result<Step<'a>, HandshakeError>,
)
    requires
        is_step(Handshake::Setup, who, msg, r),
        answerable(HandshakeView::Setup, msg@),
        !(msg is AuthenticationSasl),
    ensures
        if msg == Message::Signal(Signal::ReadyForQuery) {
            r matches Ok(Step::Ready)
        } else if msg == Message::Signal(Signal::AuthenticationOk) || msg == Message::Signal(
            Signal::ParameterStatus,
        ) || msg == Message::Signal(Signal::BackendKeyData) {
            r matches Ok(Step::Wait(Handshake::Setup))
        } else {
            r matches Err(HandshakeError::Failed(text)) && text@
                == "Got unexpected message during while setting up connection: `"@ + message_name(
                msg@,
            ) + "`"@
        },
{
}

/// The client has no answer to four kinds of authentication, where it could be asked
/// for them, and to every other message it has one.
pub proof fn law_four_requests_have_no_answer(state: HandshakeView, msg: MessageView)
    ensures
        !answerable(state, msg) <==> state is Setup && (msg == MessageView::Signal(
            Signal::AuthenticationCleartextPassword,
        ) || msg == MessageView::Signal(Signal::AuthenticationGss) || msg == MessageView::Signal(
            Signal::AuthenticationKerberosV5,
        ) || msg == MessageView::Signal(Signal::AuthenticationMd5Password)),
{
}

/// What a step, an error and credentials say is what they hold.
pub proof fn law_steps_say_what_they_hold<'a>(
    bytes: Vec<u8>,
    next: Handshake<'a>,
    text: String,
    who: Credentials,
)
    ensures
        Step::Wait(next)@ == StepView::Wait(next@),
        Step::Send(bytes, next)@ == StepView::Send(bytes@, next@),
        HandshakeError::Failed(text)@ == HandshakeErrorView::Failed(text@),
        who@.username == who.username@,
        who.password matches Some(password) ==> who@.password == Some(password@),
        who.password is None ==> who@.password is None,
{
}

proof fn lemma_three_fields_can_be_read(fields: Seq<Seq<u8>>, more: Seq<u8>, data: Seq<u8>)
    requires
        fields.len() == 3,
        forall|i: int|
            0 <= i < 3 ==> (#[trigger] fields[i]).len() >= 2 && !fields[i].contains(0x2c),
        data == fields[0] + seq![0x2cu8] + fields[1] + seq![0x2cu8] + fields[2] + more,
        more.len() > 0 ==> more[0] == 0x2c,
    ensures
        challenge_readable(data),
{
    let third = fields[2] + more;
    let second = fields[1] + seq![0x2cu8] + third;
    assert(data =~= fields[0] + seq![0x2cu8] + second);
    lemma_field_in_front(fields[0], second);
    lemma_field_in_front(fields[1], third);
    assert forall|i: int| 0 <= i < fields[2].len() implies third[i] != 0x2c by {
        assert(fields[2].contains(fields[2][i]));
    }
    lemma_field_len_is(third, fields[2].len() as int);
    reveal_with_fuel(fields_readable, 4);
    assert(data.skip(fields[0].len() as int + 1) =~= second);
    assert(second.skip(fields[1].len() as int + 1) =~= third);
}

proof fn lemma_field_in_front(field: Seq<u8>, rest: Seq<u8>)
    requires
        !field.contains(0x2c),
    ensures
        field_len(field + seq![0x2cu8] + rest) == field.len(),
{
    let bytes = field + seq![0x2cu8] + rest;
    assert forall|i: int| 0 <= i < field.len() implies bytes[i] != 0x2c by {
        assert(field.contains(field[i]));
    }
    lemma_field_len_is(bytes, field.len() as int);
}

} // verus!
