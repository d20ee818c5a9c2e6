use devenv_cloud::github::WebhookProcessor;
use devenv_cloud::protocol::{CompletionStatus, JobStatus, Platform, VsockGuestMessage};
use devenv_cloud::vsock::{decode_frame, frame_message, GuestSession, SessionAction};
use hmac::{KeyInit, Mac};

#[test]
fn test_platform_names_round_trip() {
    assert_eq!(Platform::X86_64Linux.as_str(), "x86_64-linux");
    assert_eq!(Platform::AArch64Darwin.as_str(), "aarch64-darwin");
    assert_eq!(Platform::parse("x86_64-linux"), Ok(Platform::X86_64Linux));
    assert_eq!(Platform::parse("aarch64-darwin"), Ok(Platform::AArch64Darwin));
    assert_eq!(
        Platform::parse("amiga"),
        Err("Unknown platform: amiga".to_string())
    );
}

#[test]
fn test_job_status_db_text_round_trip() {
    let statuses = [
        JobStatus::Queued,
        JobStatus::Running,
        JobStatus::Complete(CompletionStatus::Failed),
        JobStatus::Complete(CompletionStatus::Success),
        JobStatus::Complete(CompletionStatus::Cancelled),
        JobStatus::Complete(CompletionStatus::TimedOut),
        JobStatus::Complete(CompletionStatus::Skipped),
    ];
    for st in statuses {
        assert_eq!(JobStatus::from_db_text(st.db_text()), Ok(st));
    }
    assert_eq!(JobStatus::db_text(&JobStatus::Complete(CompletionStatus::TimedOut)), "timed_out");
    assert!(JobStatus::from_db_text("paused").is_err());
}

#[test]
fn test_frame_round_trip() {
    let payload = b"{\"Ready\":{\"id\":7}}".to_vec();
    let mut wire = frame_message(&payload);
    // a second frame sits behind the first on the stream
    wire.extend_from_slice(&frame_message(&b"rest".to_vec()));
    let (decoded, consumed) = decode_frame(&wire).expect("whole frame present");
    assert_eq!(decoded, payload);
    assert_eq!(consumed, 4 + payload.len());
}

#[test]
fn test_decode_frame_needs_whole_frame() {
    let payload = b"abcdef".to_vec();
    let wire = frame_message(&payload);
    assert!(decode_frame(&wire[..3].to_vec()).is_none());
    assert!(decode_frame(&wire[..wire.len() - 1].to_vec()).is_none());
}

#[test]
fn test_guest_session_accepts_only_matching_messages() {
    let mut session = GuestSession::new(5);

    // a completion during the handshake is a protocol error
    let early = VsockGuestMessage::Complete { id: 5, success: true };
    assert_eq!(session.on_message(&early), SessionAction::ProtocolError);

    // the wrong job's Ready is a protocol error; the right one proceeds
    let wrong = VsockGuestMessage::Ready { id: 6 };
    assert_eq!(session.on_message(&wrong), SessionAction::ProtocolError);
    let right = VsockGuestMessage::Ready { id: 5 };
    assert_eq!(session.on_message(&right), SessionAction::Acknowledged);

    // logs for other jobs are dropped; matching ones are forwarded
    let foreign_log = VsockGuestMessage::Log {
        id: 9,
        level: "INFO".to_string(),
        target: "t".to_string(),
        message: "m".to_string(),
        fields: Vec::new(),
    };
    assert_eq!(session.on_message(&foreign_log), SessionAction::Ignore);
    let own_log = VsockGuestMessage::Log {
        id: 5,
        level: "INFO".to_string(),
        target: "t".to_string(),
        message: "m".to_string(),
        fields: Vec::new(),
    };
    assert_eq!(session.on_message(&own_log), SessionAction::ForwardLog);

    // exactly one completion is recorded; later ones change nothing
    let done = VsockGuestMessage::Complete { id: 5, success: false };
    assert_eq!(session.on_message(&done), SessionAction::CompleteSession);
    assert_eq!(session.result, Some(false));
    let again = VsockGuestMessage::Complete { id: 5, success: true };
    assert_eq!(session.on_message(&again), SessionAction::Ignore);
    assert_eq!(session.result, Some(false));
}

#[test]
fn test_webhook_signature_accepts_valid_header() {
    // The signature check agrees with a directly computed
    // HMAC-SHA-256 code.
    let body = b"The quick brown fox jumps over the lazy dog";
    let secret = "key";
    let mut mac = hmac::Hmac::<sha2::Sha256>::new_from_slice(secret.as_bytes()).unwrap();
    mac.update(body);
    let code = mac.finalize().into_bytes();
    let header = format!("sha256={}", hex::encode(code));
    assert!(WebhookProcessor::verify_webhook_signature(body, &header, secret).is_ok());
    // the known value of this classic pair, for good measure
    assert_eq!(
        header,
        "sha256=f7bc83f430538424b13298e6aa6fb143ef4d59a14946175997479dbc2d1a3cd8"
    );
}

#[test]
fn test_webhook_signature_rejects_bad_headers() {
    let body = b"payload";
    let secret = "s";
    let e = WebhookProcessor::verify_webhook_signature(body, "sig", secret).unwrap_err();
    assert_eq!(e, "Invalid signature format");
    let e = WebhookProcessor::verify_webhook_signature(body, "sha256=zz", secret).unwrap_err();
    assert_eq!(e, "Invalid signature encoding");
    let e = WebhookProcessor::verify_webhook_signature(body, "sha256=00ff", secret).unwrap_err();
    assert_eq!(e, "Invalid signature");
}

#[test]
fn test_tampered_body_is_rejected() {
    let secret = "webhook-secret";
    let mut mac = hmac::Hmac::<sha2::Sha256>::new_from_slice(secret.as_bytes()).unwrap();
    mac.update(b"original body");
    let header = format!("sha256={}", hex::encode(mac.finalize().into_bytes()));
    assert!(
        WebhookProcessor::verify_webhook_signature(b"tampered body", &header, secret).is_err()
    );
}
