use robine::api_contract::reconnect_delay_milliseconds;
use robine::api_contract::{
    application_error_response, authentication_error, forwards_live_event, new_correlation_id, ready_cursor,
    wants_topic, StreamClientMessage, API_VERSION,
};
use robine::application::{validate_area_name, validate_display_name, ApplicationError, FlowError};
use robine::domain::DomainError;

#[test]
fn use_case_errors_are_answered_without_infrastructure_details() {
    let (status, body) = application_error_response(&ApplicationError::EntityNotFound, "cor_1".into());
    assert_eq!((status, body.code, body.message.as_str()), (404, "entity_not_found", "entity not found"));
    let (status, body) =
        application_error_response(&ApplicationError::Infrastructure("disk full".into()), "cor_2".into());
    assert_eq!(status, 500);
    assert_eq!(body.message, "the server could not complete the request");
    assert_eq!(body.correlation_id, "cor_2");
    let (status, body) = application_error_response(
        &ApplicationError::Domain(DomainError::InvalidStateValue("switch".into())),
        "cor_3".into(),
    );
    assert_eq!((status, body.code), (400, "invalid_request"));
    assert_eq!(body.message, "state value does not match capability switch");
    let (status, body) = authentication_error(false, "c".into());
    assert_eq!((status, body.code), (401, "authentication_required"));
    assert_eq!(authentication_error(true, "c".into()).1.message, "the bearer token is invalid");
    let id = new_correlation_id();
    assert!(id.starts_with("cor_"));
    assert_eq!(id.len(), 40);
    assert_eq!(API_VERSION, "v1");
}

#[test]
fn streams_replay_then_follow_their_topics() {
    assert_eq!(ready_cursor(&vec![4, 9], 2), 9);
    assert_eq!(ready_cursor(&vec![], 2), 2);
    let topics = vec!["state".to_string(), "command".to_string()];
    assert!(wants_topic(&topics, "command"));
    assert!(!wants_topic(&topics, "device"));
    assert!(forwards_live_event(10, 9, &topics, "state"));
    assert!(!forwards_live_event(9, 9, &topics, "state"));
    let subscribe = StreamClientMessage::Subscribe { topics, after: Some(3) };
    assert!(matches!(subscribe, StreamClientMessage::Subscribe { after: Some(3), .. }));
}

#[test]
fn names_are_checked_before_any_change() {
    assert!(validate_display_name("Salon").is_ok());
    assert_eq!(
        validate_display_name("   "),
        Err(ApplicationError::Validation("name must contain between 1 and 120 characters".into()))
    );
    assert!(validate_display_name(&"é".repeat(120)).is_ok());
    assert!(validate_display_name(&"é".repeat(121)).is_err());
    assert_eq!(validate_area_name(""), Err(ApplicationError::Validation("area name must not be empty".into())));
    assert_eq!(FlowError::Disabled.message(), "automation is disabled");
    assert_eq!(
        FlowError::Application(ApplicationError::CapabilityNotSupported("x".into())).message(),
        "capability not supported: x"
    );
}

#[test]
fn stream_reconnection_backs_off_up_to_32_seconds() {
    assert_eq!(reconnect_delay_milliseconds(0), 2_000);
    assert_eq!(reconnect_delay_milliseconds(3), 16_000);
    assert_eq!(reconnect_delay_milliseconds(4), 32_000);
    assert_eq!(reconnect_delay_milliseconds(255), 32_000);
}
