use salpa::request_completion::{
    complete_cbor, complete_update, disposition, CborCompletion, ReplyDisposition, ReplyError,
};

#[test]
fn ctap_status_controls_confirmation_even_when_dispatch_succeeds() {
    for status in 0..=u8::MAX {
        let mut response = [status, 0xa0];
        let outcome = complete_cbor(true, &mut response, |bytes| {
            assert_eq!(bytes, [status, 0xa0]);
            Ok(())
        });
        assert_eq!(
            outcome,
            Ok(if status == 0 {
                CborCompletion::Succeeded
            } else {
                CborCompletion::Failed
            })
        );
        assert_eq!(response, [0; 2]);
    }
}

#[test]
fn dispatch_failure_or_missing_response_sends_ctap_other() {
    let mut stale_response = [0, 0xa0];
    assert_eq!(
        complete_cbor(false, &mut stale_response, |bytes| {
            assert_eq!(bytes, [0x7f]);
            Ok(())
        }),
        Ok(CborCompletion::Failed)
    );
    assert_eq!(stale_response, [0; 2]);
    assert_eq!(
        complete_cbor(true, &mut [], |bytes| {
            assert_eq!(bytes, [0x7f]);
            Ok(())
        }),
        Ok(CborCompletion::Failed)
    );
}

#[test]
fn transport_abort_and_error_never_confirm_and_always_clear_the_response() {
    for error in [ReplyError::NoPendingRequest, ReplyError::ResponseTooLong] {
        let mut response = [0, 0xa0];
        let outcome = complete_cbor(true, &mut response, |_| Err(error));
        assert_eq!(
            outcome,
            if error == ReplyError::NoPendingRequest {
                Ok(CborCompletion::Interrupted)
            } else {
                Err(error)
            }
        );
        assert_eq!(response, [0; 2]);
    }
}

#[test]
fn update_replies_share_abort_handling_and_clear_on_every_result() {
    for result in [
        Ok(()),
        Err(ReplyError::NoPendingRequest),
        Err(ReplyError::ResponseTooLong),
    ] {
        let mut response = [0x5a; 64];
        let outcome = complete_update(&mut response, |bytes| {
            assert_eq!(bytes, [0x5a; 64]);
            result
        });
        assert_eq!(outcome, disposition(result));
        assert_eq!(response, [0; 64]);
    }
}

#[test]
fn disposition_maps_each_transport_answer() {
    assert_eq!(disposition(Ok(())), Ok(ReplyDisposition::Queued));
    assert_eq!(
        disposition(Err(ReplyError::NoPendingRequest)),
        Ok(ReplyDisposition::Discarded)
    );
    assert_eq!(
        disposition(Err(ReplyError::ResponseTooLong)),
        Err(ReplyError::ResponseTooLong)
    );
}

#[test]
fn dispatch_success_with_error_status_is_sent_but_fails() {
    let mut response = [0x31];
    let mut sent = Vec::new();
    assert_eq!(
        complete_cbor(true, &mut response, |bytes| {
            sent.extend_from_slice(bytes);
            Ok(())
        }),
        Ok(CborCompletion::Failed)
    );
    assert_eq!(sent, [0x31]);
    assert_eq!(response, [0]);
}
