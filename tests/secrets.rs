use configserver::config::SecretPolicy;
use configserver::secret::{decrypt_base64_string, encrypt_base64_string, DecodeError};
use configserver::tokens::{render_secrets, resolve_secrets, secret_payloads_of};

#[test]
fn encryption_round_trip() {
    for text in ["supersecret", "", "with spaces and ünïcödé", "a:b/c{enc:x}"] {
        let envelope = encrypt_base64_string("my-key", text);
        assert_ne!(envelope, text);
        assert_eq!(decrypt_base64_string("my-key", &envelope), Ok(text.to_string()));
    }
}

#[test]
fn encryption_is_deterministic() {
    assert_eq!(encrypt_base64_string("k", "value"), encrypt_base64_string("k", "value"));
    assert_ne!(encrypt_base64_string("k", "value"), encrypt_base64_string("other", "value"));
}

#[test]
fn decryption_with_another_key_fails() {
    let envelope = encrypt_base64_string("right-key", "supersecret");
    assert_eq!(decrypt_base64_string("wrong-key", &envelope), Err(DecodeError));
}

#[test]
fn malformed_envelope_fails() {
    assert_eq!(decrypt_base64_string("k", "not base64!"), Err(DecodeError));
    assert_eq!(decrypt_base64_string("k", "AAAA"), Err(DecodeError));
}

#[test]
fn payloads_are_found_in_order() {
    let found = secret_payloads_of("a={enc:one}\nb={enc:two} c={enc:three}");
    assert_eq!(found, vec!["one".to_string(), "two".to_string(), "three".to_string()]);
}

#[test]
fn payload_stops_at_first_brace_and_not_across_lines() {
    assert_eq!(secret_payloads_of("{enc:a}b}"), vec!["a".to_string()]);
    assert!(secret_payloads_of("{enc:a\nb}").is_empty());
    assert!(secret_payloads_of("{enc:abc").is_empty());
    assert!(secret_payloads_of("{ENC:abc}").is_empty());
    assert_eq!(secret_payloads_of("{enc:}"), vec!["".to_string()]);
    assert_eq!(secret_payloads_of("{{enc:x}"), vec!["x".to_string()]);
    assert!(secret_payloads_of("").is_empty());
}

#[test]
fn render_replaces_tokens_with_given_texts() {
    let plain = vec![Some("1".to_string()), Some("22".to_string())];
    let out = render_secrets("x={enc:a} y={enc:b}.", &plain, SecretPolicy::FailClosed);
    assert_eq!(out, Ok("x=1 y=22.".to_string()));
}

#[test]
fn render_failure_policies() {
    let plain = vec![Some("1".to_string()), None];
    assert_eq!(
        render_secrets("x={enc:a} y={enc:b}", &plain, SecretPolicy::KeepToken),
        Ok("x=1 y={enc:b}".to_string())
    );
    assert_eq!(render_secrets("x={enc:a} y={enc:b}", &plain, SecretPolicy::FailClosed), Err(DecodeError));
    assert_eq!(
        render_secrets("x={enc:a}", &vec![], SecretPolicy::KeepToken),
        Ok("x={enc:a}".to_string())
    );
    assert_eq!(render_secrets("plain text", &vec![], SecretPolicy::FailClosed), Ok("plain text".to_string()));
}

#[test]
fn valid_envelope_is_decrypted_in_place() {
    let envelope = encrypt_base64_string("service-key", "supersecret");
    let content = format!("db.password={{enc:{}}}\ndb.user=app\n", envelope);
    assert_eq!(
        resolve_secrets(&content, "service-key", SecretPolicy::FailClosed),
        Ok("db.password=supersecret\ndb.user=app\n".to_string())
    );
    assert_eq!(
        resolve_secrets(&content, "service-key", SecretPolicy::KeepToken),
        Ok("db.password=supersecret\ndb.user=app\n".to_string())
    );
}

#[test]
fn foreign_envelope_follows_policy() {
    let envelope = encrypt_base64_string("another-key", "supersecret");
    let content = format!("db.password={{enc:{}}}", envelope);
    assert_eq!(resolve_secrets(&content, "service-key", SecretPolicy::FailClosed), Err(DecodeError));
    assert_eq!(resolve_secrets(&content, "service-key", SecretPolicy::KeepToken), Ok(content.clone()));
}

#[test]
fn envelope_is_padded_standard_base64() {
    for text in ["", "a", "supersecret", "a much longer secret value than one block"] {
        let envelope = encrypt_base64_string("k", text);
        assert_eq!(envelope.len() % 4, 0);
        assert!(envelope
            .chars()
            .all(|c| c.is_ascii_alphanumeric() || c == '+' || c == '/' || c == '='));
    }
}

#[test]
fn secret_between_text_is_replaced_in_place() {
    let envelope = encrypt_base64_string("service-key", "supersecret");
    let content = format!("url=db://host\npassword={{enc:{}}} # kept\nport=5432", envelope);
    assert_eq!(secret_payloads_of(&content), vec![envelope.clone()]);
    assert_eq!(
        resolve_secrets(&content, "service-key", SecretPolicy::KeepToken),
        Ok("url=db://host\npassword=supersecret # kept\nport=5432".to_string())
    );
}
