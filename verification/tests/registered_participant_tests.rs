use outer::clock::{Duration, Timestamp};
use outer::crdt::participant::color_for;
use outer::crdt::{Participant, ParticipantKind, ParticipantStatus};
use outer::delegation::capability::{Capability, CapabilitySet};
use outer::delegation::RegisteredParticipant;

fn make_user_participant() -> Participant {
    Participant::new("Alice", ParticipantKind::User)
}

fn make_agent_participant() -> Participant {
    Participant::new("Bot", ParticipantKind::Agent)
}

fn make_observer_participant() -> Participant {
    Participant::new("Watcher", ParticipantKind::Observer)
}

#[test]
fn test_registered_participant_user_defaults() {
    let p = Participant::new("Alice", ParticipantKind::User);
    let reg = RegisteredParticipant::new(p);

    assert!(reg.has_capability(Capability::Read));
    assert!(reg.has_capability(Capability::Submit));
    assert!(reg.has_capability(Capability::Fork));
    assert!(reg.has_capability(Capability::Delegate));
    assert!(reg.has_capability(Capability::Approve));
    assert!(!reg.has_capability(Capability::Admin));
    assert_eq!(reg.work_capacity, 5);
}

#[test]
fn test_registered_participant_agent_defaults() {
    let p = Participant::new("Bot", ParticipantKind::Agent);
    let reg = RegisteredParticipant::new(p);

    assert!(reg.has_capability(Capability::Read));
    assert!(reg.has_capability(Capability::Submit));
    assert!(reg.has_capability(Capability::Fork));
    assert!(reg.has_capability(Capability::Delegate));
    assert!(!reg.has_capability(Capability::Approve));
    assert!(!reg.has_capability(Capability::Admin));
    assert_eq!(reg.work_capacity, 10);
}

#[test]
fn test_registered_participant_observer_defaults() {
    let p = Participant::new("Watcher", ParticipantKind::Observer);
    let reg = RegisteredParticipant::new(p);

    assert!(reg.has_capability(Capability::Read));
    assert!(!reg.has_capability(Capability::Submit));
    assert!(!reg.has_capability(Capability::Fork));
    assert!(!reg.has_capability(Capability::Delegate));
    assert!(!reg.has_capability(Capability::Approve));
    assert_eq!(reg.work_capacity, 0);
}

#[test]
fn test_registered_participant_with_capabilities() {
    let p = make_user_participant();
    let mut caps = CapabilitySet::new();
    caps.add(Capability::Read);
    caps.add(Capability::Admin);

    let reg = RegisteredParticipant::with_capabilities(p, caps);
    assert!(reg.has_capability(Capability::Admin));
    // Admin grants all
    assert!(reg.has_capability(Capability::Submit));
}

#[test]
fn test_can_delegate() {
    let user = RegisteredParticipant::new(make_user_participant());
    let observer = RegisteredParticipant::new(make_observer_participant());

    assert!(user.can_delegate());
    assert!(!observer.can_delegate());
}

#[test]
fn test_can_approve() {
    let user = RegisteredParticipant::new(make_user_participant());
    let agent = RegisteredParticipant::new(make_agent_participant());

    assert!(user.can_approve());
    assert!(!agent.can_approve());
}

#[test]
fn test_can_receive_work() {
    let mut user = RegisteredParticipant::new(make_user_participant());
    assert!(user.can_receive_work());

    user.set_accepting_work(false);
    assert!(!user.can_receive_work());

    let observer = RegisteredParticipant::new(make_observer_participant());
    assert!(!observer.can_receive_work()); // capacity is 0
}

#[test]
fn test_grant_and_revoke_capability() {
    let mut reg = RegisteredParticipant::new(make_agent_participant());
    assert!(!reg.has_capability(Capability::Approve));

    reg.grant_capability(Capability::Approve);
    assert!(reg.has_capability(Capability::Approve));

    reg.revoke_capability(Capability::Approve);
    assert!(!reg.has_capability(Capability::Approve));
}

#[test]
fn test_participant_id_and_name() {
    let p = Participant::new("TestUser", ParticipantKind::User);
    let id = p.id;
    let reg = RegisteredParticipant::new(p);

    assert_eq!(reg.id(), id);
    assert_eq!(reg.name(), "TestUser");
    assert_eq!(reg.kind(), ParticipantKind::User);
}

#[test]
fn test_participant_new() {
    let p = Participant::new("Alice", ParticipantKind::User);
    assert_eq!(p.name, "Alice");
    assert_eq!(p.kind, ParticipantKind::User);
    assert_eq!(p.status, ParticipantStatus::Active);
    assert!(p.cursor_block_id.is_none());
    assert!(!p.color.is_empty());
    assert_eq!(p.joined_at, p.last_seen_at);
    // A fresh identifier is a version 4 UUID.
    let id = uuid::Uuid::from_u128(p.id);
    assert_eq!(id.get_version_num(), 4);
    assert_ne!(p.id, Participant::new("Alice", ParticipantKind::User).id);
}

#[test]
fn test_participant_with_id() {
    let id = 0x0300_0000_0000_0000_0000_0000_0000_0000;
    let p = Participant::with_id(id, "Bob", ParticipantKind::Agent);
    assert_eq!(p.id, id);
    assert_eq!(p.name, "Bob");
    assert_eq!(p.kind, ParticipantKind::Agent);
    assert_eq!(p.color, "#96CEB4");
    // The clock reads a time after 2020.
    assert!(p.joined_at.secs > 1_577_836_800);
    assert!(p.joined_at.nanos < 1_000_000_000);
}

#[test]
fn test_set_cursor() {
    let mut p = Participant::new("Test", ParticipantKind::User);
    p.set_cursor(Some(9), Some(42));
    assert_eq!(p.cursor_block_id, Some(9));
    assert_eq!(p.cursor_offset, Some(42));
}

#[test]
fn test_mark_idle() {
    let mut p = Participant::new("Test", ParticipantKind::User);
    assert_eq!(p.status, ParticipantStatus::Active);
    p.mark_idle();
    assert_eq!(p.status, ParticipantStatus::Idle);
}

#[test]
fn test_mark_disconnected() {
    let mut p = Participant::new("Test", ParticipantKind::User);
    p.mark_disconnected();
    assert_eq!(p.status, ParticipantStatus::Disconnected);
}

#[test]
fn test_touch_reactivates_idle() {
    let mut p = Participant::new("Test", ParticipantKind::User);
    p.mark_idle();
    assert_eq!(p.status, ParticipantStatus::Idle);
    p.touch();
    assert_eq!(p.status, ParticipantStatus::Active);
    p.mark_disconnected();
    p.touch();
    assert_eq!(p.status, ParticipantStatus::Disconnected);
}

#[test]
fn test_participant_color_deterministic() {
    let id = 0xfe00_0000_0000_0000_0000_0000_0000_0001;
    let p1 = Participant::with_id(id, "A", ParticipantKind::User);
    let p2 = Participant::with_id(id, "B", ParticipantKind::User);
    assert_eq!(p1.color, p2.color);
    assert_eq!(p1.color, "#98D8C8");
    assert_eq!(color_for(0), "#FF6B6B");
    assert_eq!(color_for(1 << 120), "#4ECDC4");
    assert_eq!(color_for(2 << 120), "#45B7D1");
    assert_eq!(color_for(4 << 120), "#FFEAA7");
    assert_eq!(color_for(5 << 120), "#DDA0DD");
    assert_eq!(color_for(7 << 120), "#F7DC6F");
    assert_eq!(color_for(8 << 120), "#FF6B6B");
    assert_eq!(color_for((1 << 120) - 1), "#FF6B6B");
}

#[test]
fn test_is_stale() {
    let mut p = Participant::new("Test", ParticipantKind::User);

    // Fresh participant should not be stale
    assert!(!p.is_stale(Duration::seconds(60)));

    // Manually set last_seen_at to the past
    p.last_seen_at = Timestamp { secs: p.last_seen_at.secs - 120, nanos: p.last_seen_at.nanos };
    assert!(p.is_stale(Duration::seconds(60)));
}

#[test]
fn staleness_is_measured_to_the_nanosecond() {
    let at = |secs, nanos| Timestamp { secs, nanos };
    let p = Participant::with_id_at(1, "T", ParticipantKind::User, at(100, 500));
    let minute = Duration::seconds(60);
    assert!(!p.is_stale_at(at(160, 500), minute));
    assert!(p.is_stale_at(at(160, 501), minute));
    assert!(!p.is_stale_at(at(99, 0), minute));
    assert!(p.is_stale_at(at(100, 501), Duration { secs: 0, nanos: 0 }));
    assert!(at(1, 999_999_999).is_before(&at(2, 0)));
    assert!(!at(2, 0).is_before(&at(2, 0)));
    assert!(at(-1, 5).is_before(&at(0, 0)));
}

#[test]
fn test_observer_kind() {
    let p = Participant::new("Monitor", ParticipantKind::Observer);
    assert_eq!(p.kind, ParticipantKind::Observer);
}
