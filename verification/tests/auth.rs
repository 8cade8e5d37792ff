//! Join tickets.

use base64::engine::general_purpose::URL_SAFE_NO_PAD;
use base64::Engine;
use bridge_table_service::auth::{
    mint_ticket, open_token, verify_ticket, verify_ticket_at, Ticket, TicketError,
};
use serde_json::Value;

fn ticket() -> Ticket {
    Ticket {
        sub: "user-123".into(),
        name: "Alice".into(),
        session_id: "sess-1".into(),
        role: "student".into(),
        exp: 2_000_000_000,
    }
}

fn payload(t: &Ticket) -> Vec<u8> {
    let mut m = serde_json::value::Map::new();
    m.insert("sub".into(), t.sub.clone().into());
    m.insert("name".into(), t.name.clone().into());
    m.insert("session_id".into(), t.session_id.clone().into());
    m.insert("role".into(), t.role.clone().into());
    m.insert("exp".into(), t.exp.into());
    serde_json::to_vec(&Value::Object(m)).unwrap()
}

fn read(bytes: &Vec<u8>) -> Option<Ticket> {
    let v: Value = serde_json::from_slice(bytes).ok()?;
    let text = |key: &str| v[key].as_str().map(|s| s.to_string());
    Some(Ticket {
        sub: text("sub")?,
        name: text("name")?,
        session_id: text("session_id")?,
        role: text("role")?,
        exp: v["exp"].as_i64()?,
    })
}

#[test]
fn round_trip() {
    let t = ticket();
    let token = mint_ticket(&payload(&t), "secret");
    let got = verify_ticket_at(&token, "secret", 1_900_000_000, read).unwrap();
    assert_eq!(got, t);
}

#[test]
fn wrong_secret_rejected() {
    let token = mint_ticket(&payload(&ticket()), "secret");
    assert_eq!(
        verify_ticket_at(&token, "other", 1_900_000_000, read),
        Err(TicketError::BadSignature)
    );
}

#[test]
fn expired_rejected() {
    let token = mint_ticket(&payload(&ticket()), "secret");
    assert_eq!(
        verify_ticket_at(&token, "secret", 2_000_000_001, read),
        Err(TicketError::Expired)
    );
    // A ticket is good up to its last second.
    assert!(verify_ticket_at(&token, "secret", 2_000_000_000, read).is_ok());
}

#[test]
fn tampered_payload_rejected() {
    let t = ticket();
    let token = mint_ticket(&payload(&t), "secret");
    let (_, sig) = token.split_once('.').unwrap();
    let mut evil = t.clone();
    evil.role = "teacher".into();
    let evil_b64 = URL_SAFE_NO_PAD.encode(payload(&evil));
    let forged = format!("{evil_b64}.{sig}");
    assert_eq!(
        verify_ticket_at(&forged, "secret", 1_900_000_000, read),
        Err(TicketError::BadSignature)
    );
}

#[test]
fn garbage_rejected() {
    assert_eq!(
        verify_ticket_at("not-a-ticket", "secret", 0, read),
        Err(TicketError::Malformed)
    );
}

#[test]
fn a_signature_must_be_base64_and_a_payload_a_ticket() {
    assert_eq!(open_token("abc.!!", "secret"), Err(TicketError::Malformed));
    // Signed, but no ticket.
    let token = mint_ticket(b"[1,2,3]", "secret");
    assert_eq!(open_token(&token, "secret"), Ok(b"[1,2,3]".to_vec()));
    assert_eq!(verify_ticket_at(&token, "secret", 0, read), Err(TicketError::Malformed));
    assert_eq!(TicketError::Malformed.message(), "malformed ticket");
    assert_eq!(TicketError::BadSignature.message(), "bad ticket signature");
    assert_eq!(TicketError::Expired.message(), "ticket expired");
}

#[test]
fn the_token_is_what_both_sides_sign() {
    // HMAC-SHA256 of "aGVsbG8" under the key "key", in base64url.
    let token = mint_ticket(b"hello", "key");
    let (payload, sig) = token.split_once('.').unwrap();
    assert_eq!(payload, "aGVsbG8");
    assert_eq!(sig, "a-znJOS63WXYo_y1dro-4sxa6aNs1kHDt_ruUVSEy0k");
    let code = URL_SAFE_NO_PAD.decode(sig).unwrap();
    assert_eq!(code.len(), 32);
    // A shortened signature is no signature.
    let short = URL_SAFE_NO_PAD.encode(&code[..16]);
    assert_eq!(
        open_token(&format!("{payload}.{short}"), "key"),
        Err(TicketError::BadSignature)
    );
}

#[test]
fn the_clock_decides_on_expiry() {
    let mut t = ticket();
    t.exp = 0;
    let old = mint_ticket(&payload(&t), "secret");
    assert_eq!(verify_ticket(&old, "secret", read), Err(TicketError::Expired));
    t.exp = i64::MAX;
    let fresh = mint_ticket(&payload(&t), "secret");
    assert_eq!(verify_ticket(&fresh, "secret", read), Ok(t));
}
