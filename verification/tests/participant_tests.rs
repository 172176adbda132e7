use outer::crdt::{ParticipantKind, ParticipantStatus};

#[test]
fn test_participant_kind_as_str() {
    assert_eq!(ParticipantKind::User.as_str(), "user");
    assert_eq!(ParticipantKind::Agent.as_str(), "agent");
    assert_eq!(ParticipantKind::Observer.as_str(), "observer");
}

#[test]
fn test_participant_kind_from_str() {
    assert_eq!("user".parse::<ParticipantKind>().unwrap(), ParticipantKind::User);
    assert_eq!("agent".parse::<ParticipantKind>().unwrap(), ParticipantKind::Agent);
    assert_eq!("observer".parse::<ParticipantKind>().unwrap(), ParticipantKind::Observer);
}

#[test]
fn test_participant_kind_from_str_invalid() {
    let result = "invalid".parse::<ParticipantKind>();
    assert!(result.is_err());
}

#[test]
fn test_participant_status_as_str() {
    assert_eq!(ParticipantStatus::Active.as_str(), "active");
    assert_eq!(ParticipantStatus::Idle.as_str(), "idle");
    assert_eq!(ParticipantStatus::Disconnected.as_str(), "disconnected");
}

#[test]
fn test_participant_status_from_str() {
    assert_eq!("active".parse::<ParticipantStatus>().unwrap(), ParticipantStatus::Active);
    assert_eq!("idle".parse::<ParticipantStatus>().unwrap(), ParticipantStatus::Idle);
    assert_eq!("disconnected".parse::<ParticipantStatus>().unwrap(), ParticipantStatus::Disconnected);
}

#[test]
fn test_participant_status_from_str_invalid() {
    let result = "invalid".parse::<ParticipantStatus>();
    assert!(result.is_err());
}
