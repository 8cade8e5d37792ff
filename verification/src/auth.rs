//! Join-ticket verification.
//!
//! The bridge-classroom API mints short-lived tickets (HMAC-SHA256 over a
//! JSON payload, keyed by the `TICKET_SECRET` shared between the two
//! services). This service verifies them offline — no callback to the API.
//!
//! Wire format: `base64url(payload_json) + "." + base64url(hmac_sha256(payload_b64))`
//! The MAC is computed over the base64url payload *string* so both sides
//! sign exactly the bytes that travel.
//!
//! What a payload says is read by whoever holds the JSON parser: here it is
//! framed, signed and checked as bytes.

use base64::engine::general_purpose::URL_SAFE_NO_PAD;
use base64::Engine;
use hmac::Mac;
use vstd::prelude::*;
use vstd::string::*;
use vstd::utf8::encode_utf8;

use crate::text::{chars_of, find_char, first_index, lemma_first_index, string_of};

verus! {

/// Who may join what.
#[derive(Clone, Debug, PartialEq, Eq)]
pub struct Ticket {
    /// User id (bridge-classroom user UUID) or guest id.
    pub sub: String,
    /// Display name shown at the table.
    pub name: String,
    /// The table session this ticket admits to.
    pub session_id: String,
    /// "student" | "teacher" | "guest"
    pub role: String,
    /// Unix seconds expiry.
    pub exp: i64,
}

/// Why a ticket is refused.
#[derive(Clone, Copy, Debug, PartialEq, Eq, Structural)]
pub enum TicketError {
    Malformed,
    BadSignature,
    Expired,
}

impl TicketError {
    pub open spec fn words(self) -> Seq<char> {
        match self {
            TicketError::Malformed => "malformed ticket"@,
            TicketError::BadSignature => "bad ticket signature"@,
            TicketError::Expired => "ticket expired"@,
        }
    }

    /// What the client is told.
    pub fn message(&self) -> (r: &'static str)
        ensures
            r@ == self.words(),
    {
        match self {
            TicketError::Malformed => "malformed ticket",
            TicketError::BadSignature => "bad ticket signature",
            TicketError::Expired => "ticket expired",
        }
    }
}

/// Why a text is not base64url.
#[verifier::external_type_specification]
#[verifier::external_body]
pub struct ExDecodeError(base64::DecodeError);

/// The base64url text of some bytes, without padding.
pub uninterp spec fn base64_text(bytes: Seq<u8>) -> Seq<char>;

/// The bytes that a base64url text without padding stands for, if it is one.
pub uninterp spec fn base64_bytes(text: Seq<char>) -> Option<Seq<u8>>;

/// The HMAC-SHA256 code of a message under a key.
pub uninterp spec fn hmac_sha256(key: Seq<u8>, message: Seq<u8>) -> Seq<u8>;

/// The base64 text of so many bytes fits in memory: four characters for every
/// three bytes, and at most three for the rest.
pub open spec fn encodable(n: int) -> bool {
    n / 3 * 4 + 3 <= isize::MAX
}

/// Encodes bytes with `base64`'s `URL_SAFE_NO_PAD` engine (`Engine::encode`).
/// The text is given a name; of it is said that decoding it with the same
/// engine gives the bytes back, and that it holds no dot, which is not in the
/// engine's alphabet.
#[verifier::external_body]
fn encode(bytes: &[u8]) -> (r: String)
    requires
        encodable(bytes@.len() as int),
    ensures
        r@ == base64_text(bytes@),
        base64_bytes(r@) == Some(bytes@),
        !r@.contains('.'),
{
    URL_SAFE_NO_PAD.encode(bytes)
}

/// Decodes text with `base64`'s `URL_SAFE_NO_PAD` engine (`Engine::decode`).
/// What comes out, and whether anything does, is given a name.
#[verifier::external_body]
fn decode(text: &str) -> (r: Result<Vec<u8>, base64::DecodeError>)
    ensures
        match r {
            Ok(bytes) => base64_bytes(text@) == Some(bytes@),
            Err(_) => base64_bytes(text@) is None,
        },
{
    URL_SAFE_NO_PAD.decode(text)
}

/// Computes an HMAC-SHA256 code (`hmac::Hmac` over `sha2::Sha256`:
/// `Mac::new_from_slice`, which takes a key of any length, `Mac::update` with
/// the whole message, `Mac::finalize`). The code is given a name, and is 32
/// bytes long.
#[verifier::external_body]
fn sign(key: &[u8], message: &[u8]) -> (r: Vec<u8>)
    ensures
        r@ == hmac_sha256(key@, message@),
        r@.len() == 32,
{
    let mut mac = hmac::Hmac::<sha2::Sha256>::new_from_slice(key).expect("any key length");
    mac.update(message);
    mac.finalize().into_bytes().to_vec()
}

/// Checks an HMAC-SHA256 code (as `sign`, with `Mac::verify_slice` in place of
/// `Mac::finalize`): it is accepted iff it is the whole code of that message
/// under that key.
#[verifier::external_body]
fn signed(key: &[u8], message: &[u8], code: &[u8]) -> (r: bool)
    ensures
        r == (code@ == hmac_sha256(key@, message@)),
{
    let mut mac = hmac::Hmac::<sha2::Sha256>::new_from_slice(key).expect("any key length");
    mac.update(message);
    mac.verify_slice(code).is_ok()
}

/// The time in Unix seconds (`chrono::Utc::now`, `DateTime::timestamp`).
/// Nothing is promised of it. The call panics where the system's clock stands
/// before 1970.
#[verifier::external_body]
fn unix_now() -> i64 {
    chrono::Utc::now().timestamp()
}

/// The code that a payload's text is signed with.
pub open spec fn code_of(payload: Seq<char>, secret: Seq<char>) -> Seq<u8> {
    hmac_sha256(encode_utf8(secret), encode_utf8(payload))
}

/// The payload that a token carries, if the token is well formed and signed
/// with the secret. What stands before the first dot is the payload's text,
/// what stands after it the signature's.
pub open spec fn signed_payload(token: Seq<char>, secret: Seq<char>) -> Result<
    Seq<u8>,
    TicketError,
> {
    let dot = first_index(token, '.');
    if dot >= token.len() {
        Err(TicketError::Malformed)
    } else {
        let payload = token.subrange(0, dot);
        match base64_bytes(token.subrange(dot + 1, token.len() as int)) {
            None => Err(TicketError::Malformed),
            Some(code) => if code != code_of(payload, secret) {
                Err(TicketError::BadSignature)
            } else {
                match base64_bytes(payload) {
                    None => Err(TicketError::Malformed),
                    Some(bytes) => Ok(bytes),
                }
            },
        }
    }
}

/// What becomes of a ticket that a payload was read as (`None`: it could not be
/// read).
pub open spec fn admitted(ticket: Option<Ticket>, now: i64) -> Result<Ticket, TicketError> {
    match ticket {
        None => Err(TicketError::Malformed),
        Some(t) => if t.exp < now {
            Err(TicketError::Expired)
        } else {
            Ok(t)
        },
    }
}

/// Takes a token apart and checks its signature.
pub fn open_token(token: &str, secret: &str) -> (r: Result<Vec<u8>, TicketError>)
    ensures
        match r {
            Ok(bytes) => signed_payload(token@, secret@) == Ok::<Seq<u8>, TicketError>(bytes@),
            Err(e) => signed_payload(token@, secret@) == Err::<Seq<u8>, TicketError>(e),
        },
{
    let chars = chars_of(token);
    let dot: usize = find_char(&chars, '.');
    if dot >= chars.len() {
        return Err(TicketError::Malformed);
    }
    let payload = string_of(&chars, 0, dot);
    let sig_text = string_of(&chars, dot + 1, chars.len());
    let sig = match decode(sig_text.as_str()) {
        Ok(sig) => sig,
        Err(_) => {
            return Err(TicketError::Malformed);
        },
    };
    if !signed(secret.as_bytes(), payload.as_str().as_bytes(), sig.as_slice()) {
        return Err(TicketError::BadSignature);
    }
    match decode(payload.as_str()) {
        Ok(bytes) => Ok(bytes),
        Err(_) => Err(TicketError::Malformed),
    }
}

/// Decides on a ticket that a payload was read as.
pub fn let_in(ticket: Option<Ticket>, now: i64) -> (r: Result<Ticket, TicketError>)
    ensures
        r == admitted(ticket, now),
{
    match ticket {
        None => Err(TicketError::Malformed),
        Some(t) => if t.exp < now {
            Err(TicketError::Expired)
        } else {
            Ok(t)
        },
    }
}

/// What verification at a given time comes to. `read` reads a payload.
pub open spec fn verdict<F: Fn(&Vec<u8>) -> Option<Ticket>>(
    token: Seq<char>,
    secret: Seq<char>,
    now: i64,
    read: F,
    r: Result<Ticket, TicketError>,
) -> bool {
    match signed_payload(token, secret) {
        Err(e) => r == Err::<Ticket, TicketError>(e),
        Ok(payload) => exists|bytes: Vec<u8>, ticket: Option<Ticket>|
            bytes@ == payload && #[trigger] read.ensures((&bytes,), ticket) && r == admitted(
                ticket,
                now,
            ),
    }
}

/// Verification at a given time. `read` reads a payload; `None` says that it is
/// no ticket.
pub fn verify_ticket_at<F: Fn(&Vec<u8>) -> Option<Ticket>>(
    token: &str,
    secret: &str,
    now: i64,
    read: F,
) -> (r: Result<Ticket, TicketError>)
    requires
        forall|payload: &Vec<u8>| #[trigger] read.requires((payload,)),
    ensures
        verdict(token@, secret@, now, read, r),
{
    match open_token(token, secret) {
        Ok(payload) => {
            let ticket = read(&payload);
            let ghost t = ticket;
            assert(read.ensures((&payload,), t));
            let_in(ticket, now)
        },
        Err(e) => Err(e),
    }
}

/// Verification now. `read` reads a payload; `None` says that it is no ticket.
pub fn verify_ticket<F: Fn(&Vec<u8>) -> Option<Ticket>>(token: &str, secret: &str, read: F) -> (r:
    Result<Ticket, TicketError>)
    requires
        forall|payload: &Vec<u8>| #[trigger] read.requires((payload,)),
    ensures
        exists|now: i64| #[trigger] verdict(token@, secret@, now, read, r),
{
    let now: i64 = unix_now();
    verify_ticket_at(token, secret, now, read)
}

/// The token of a payload.
pub open spec fn minted(payload: Seq<u8>, secret: Seq<char>) -> Seq<char> {
    base64_text(payload) + "."@ + base64_text(code_of(base64_text(payload), secret))
}

/// Mint a ticket from its payload. The production minter is the
/// bridge-classroom API (same format). A minted ticket opens again under its
/// secret, and gives its payload back.
pub fn mint_ticket(payload: &[u8], secret: &str) -> (r: String)
    requires
        encodable(payload@.len() as int),
    ensures
        r@ == minted(payload@, secret@),
        signed_payload(r@, secret@) == Ok::<Seq<u8>, TicketError>(payload@),
{
    let payload_b64 = encode(payload);
    let code = sign(secret.as_bytes(), payload_b64.as_str().as_bytes());
    let sig_b64 = encode(code.as_slice());
    let mut token = payload_b64.clone();
    token.append(".");
    token.append(sig_b64.as_str());
    proof {
        reveal_strlit(".");
        assert(code@ == code_of(base64_text(payload@), secret@));
        assert(token@ =~= minted(payload@, secret@));
        lemma_token_parts(payload_b64@, sig_b64@);
    }
    token
}

/// A token comes apart where it was put together.
proof fn lemma_token_parts(payload: Seq<char>, sig: Seq<char>)
    requires
        !payload.contains('.'),
    ensures
        ({
            let token = payload + "."@ + sig;
            let dot = first_index(token, '.');
            &&& dot == payload.len()
            &&& dot < token.len()
            &&& token.subrange(0, dot) == payload
            &&& token.subrange(dot + 1, token.len() as int) == sig
        }),
{
    reveal_strlit(".");
    let token = payload + "."@ + sig;
    assert forall|j: int| 0 <= j < payload.len() implies token[j] != '.' by {
        assert(token[j] == payload[j]);
    }
    lemma_first_index(token, '.', payload.len() as int);
    assert(token.subrange(0, payload.len() as int) =~= payload);
    assert(token.subrange(payload.len() as int + 1, token.len() as int) =~= sig);
}

/// Only who holds the secret can sign: a token of any payload text with a
/// signature that is not that text's code under the secret is refused, and so is
/// one that is signed with a secret that gives the text another code.
pub proof fn law_forgery_is_refused(payload: Seq<char>, sig: Seq<char>, secret: Seq<char>)
    requires
        !payload.contains('.'),
        base64_bytes(sig) != Some(code_of(payload, secret)),
    ensures
        signed_payload(payload + "."@ + sig, secret) == Err::<Seq<u8>, TicketError>(
            if base64_bytes(sig) is Some {
                TicketError::BadSignature
            } else {
                TicketError::Malformed
            },
        ),
{
    lemma_token_parts(payload, sig);
}

/// What a token admits to was signed: the payload that comes out is the one
/// whose text carries the code.
pub proof fn law_only_signed_payloads_open(token: Seq<char>, secret: Seq<char>)
    requires
        signed_payload(token, secret) is Ok,
    ensures
        ({
            let dot = first_index(token, '.');
            let payload = token.subrange(0, dot);
            &&& 0 <= dot < token.len()
            &&& base64_bytes(payload) == Some(signed_payload(token, secret)->Ok_0)
            &&& base64_bytes(token.subrange(dot + 1, token.len() as int)) == Some(
                code_of(payload, secret),
            )
        }),
{
    crate::text::lemma_first_index_bounds(token, '.');
}

/// A ticket comes back from its token until it expires, the last second included.
/// The token is one that opens to a payload, as a minted one does, and `read`
/// reads that payload as the ticket.
pub proof fn law_ticket_comes_back<F: Fn(&Vec<u8>) -> Option<Ticket>>(
    token: Seq<char>,
    secret: Seq<char>,
    payload: Seq<u8>,
    ticket: Ticket,
    now: i64,
    read: F,
    r: Result<Ticket, TicketError>,
)
    requires
        signed_payload(token, secret) == Ok::<Seq<u8>, TicketError>(payload),
        forall|bytes: Vec<u8>, got: Option<Ticket>|
            bytes@ == payload && #[trigger] read.ensures((&bytes,), got) ==> got == Some(ticket),
        verdict(token, secret, now, read, r),
    ensures
        r == (if now <= ticket.exp {
            Ok::<Ticket, TicketError>(ticket)
        } else {
            Err::<Ticket, TicketError>(TicketError::Expired)
        }),
{
}

/// A ticket that has expired stays so.
pub proof fn law_expiry_is_final(ticket: Ticket, now: i64, later: i64)
    requires
        now <= later,
        admitted(Some(ticket), now) == Err::<Ticket, TicketError>(TicketError::Expired),
    ensures
        admitted(Some(ticket), later) == Err::<Ticket, TicketError>(TicketError::Expired),
{
}

/// A token is the payload's base64 text, a dot, and the base64 text of the code
/// of that text: the secret is the key, and the text as it travels is the message.
pub proof fn law_token_format(payload: Seq<u8>, secret: Seq<char>)
    requires
        !base64_text(payload).contains('.'),
    ensures
        ({
            let token = minted(payload, secret);
            let text = base64_text(payload);
            let n = text.len() as int;
            &&& token.len() > n && token[n] == '.'
            &&& token.subrange(0, n) == text
            &&& token.subrange(n + 1, token.len() as int) == base64_text(
                hmac_sha256(encode_utf8(secret), encode_utf8(text)),
            )
            &&& first_index(token, '.') == n
        }),
{
    reveal_strlit(".");
    let text = base64_text(payload);
    lemma_token_parts(text, base64_text(code_of(text, secret)));
    let token = minted(payload, secret);
    let n = text.len() as int;
    assert(token.subrange(n + 1, token.len() as int) =~= base64_text(code_of(text, secret)));
}

/// A text without a dot is no token; and whatever opens a token is keyed by the
/// secret: under it the code of the text before the first dot stands after it.
pub proof fn law_what_opens(token: Seq<char>, secret: Seq<char>)
    ensures
        !token.contains('.') ==> signed_payload(token, secret) == Err::<Seq<u8>, TicketError>(
            TicketError::Malformed,
        ),
        signed_payload(token, secret) is Ok ==> exists|text: Seq<char>, sig: Seq<char>|
            token == #[trigger] (text + "."@ + sig) && base64_bytes(sig) == Some(
                hmac_sha256(encode_utf8(secret), encode_utf8(text)),
            ) && base64_bytes(text) == Some(signed_payload(token, secret)->Ok_0),
{
    reveal_strlit(".");
    crate::text::lemma_first_index_bounds(token, '.');
    let dot = first_index(token, '.');
    if dot < token.len() {
        let text = token.subrange(0, dot);
        let sig = token.subrange(dot + 1, token.len() as int);
        assert(token[dot] == '.');
        assert(token =~= text + "."@ + sig);
    }
}

/// Each refusal has its own words.
pub proof fn law_ticket_words(e: TicketError)
    ensures
        e.words() == "malformed ticket"@ <==> e == TicketError::Malformed,
        e.words() == "bad ticket signature"@ <==> e == TicketError::BadSignature,
        e.words() == "ticket expired"@ <==> e == TicketError::Expired,
{
    reveal_strlit("malformed ticket");
    reveal_strlit("bad ticket signature");
    reveal_strlit("ticket expired");
    assert("malformed ticket"@.len() == 16 && "bad ticket signature"@.len() == 20
        && "ticket expired"@.len() == 14);
}

} // verus!
