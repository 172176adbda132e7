use outer::delegation::capability::{Capability, CapabilitySet};

#[test]
fn test_capability_as_str() {
    assert_eq!(Capability::Read.as_str(), "read");
    assert_eq!(Capability::Submit.as_str(), "submit");
    assert_eq!(Capability::Fork.as_str(), "fork");
    assert_eq!(Capability::Delegate.as_str(), "delegate");
    assert_eq!(Capability::Approve.as_str(), "approve");
    assert_eq!(Capability::Admin.as_str(), "admin");
}

#[test]
fn test_capability_from_str() {
    assert_eq!("read".parse::<Capability>().unwrap(), Capability::Read);
    assert_eq!("submit".parse::<Capability>().unwrap(), Capability::Submit);
    assert_eq!("fork".parse::<Capability>().unwrap(), Capability::Fork);
    assert_eq!(
        "delegate".parse::<Capability>().unwrap(),
        Capability::Delegate
    );
    assert_eq!(
        "approve".parse::<Capability>().unwrap(),
        Capability::Approve
    );
    assert_eq!("admin".parse::<Capability>().unwrap(), Capability::Admin);
}

#[test]
fn test_capability_from_str_invalid() {
    let result = "invalid".parse::<Capability>();
    assert!(result.is_err());
}

#[test]
fn test_capability_set_admin_override() {
    let mut caps = CapabilitySet::new();
    caps.add(Capability::Admin);

    // Admin should grant all capabilities
    assert!(caps.has(Capability::Read));
    assert!(caps.has(Capability::Submit));
    assert!(caps.has(Capability::Fork));
    assert!(caps.has(Capability::Delegate));
    assert!(caps.has(Capability::Approve));
    assert!(caps.has(Capability::Admin));
}

#[test]
fn test_capability_set_basic_operations() {
    let mut caps = CapabilitySet::new();
    assert!(caps.is_empty());

    caps.add(Capability::Read);
    assert!(!caps.is_empty());
    assert!(caps.has(Capability::Read));
    assert!(!caps.has(Capability::Submit));

    caps.remove(Capability::Read);
    assert!(!caps.has(Capability::Read));
}

#[test]
fn test_capability_set_from_vec() {
    let caps: CapabilitySet = vec![Capability::Read, Capability::Submit].into();
    assert!(caps.has(Capability::Read));
    assert!(caps.has(Capability::Submit));
    assert!(!caps.has(Capability::Fork));
}

#[test]
fn test_default_user_capabilities() {
    let caps = Capability::default_user();
    assert!(caps.contains(&Capability::Read));
    assert!(caps.contains(&Capability::Submit));
    assert!(caps.contains(&Capability::Fork));
    assert!(caps.contains(&Capability::Delegate));
    assert!(caps.contains(&Capability::Approve));
    assert!(!caps.contains(&Capability::Admin));
}

#[test]
fn test_default_agent_capabilities() {
    let caps = Capability::default_agent();
    assert!(caps.contains(&Capability::Read));
    assert!(caps.contains(&Capability::Submit));
    assert!(caps.contains(&Capability::Fork));
    assert!(caps.contains(&Capability::Delegate));
    assert!(!caps.contains(&Capability::Approve));
    assert!(!caps.contains(&Capability::Admin));
}

#[test]
fn test_default_observer_capabilities() {
    let caps = Capability::default_observer();
    assert!(caps.contains(&Capability::Read));
    assert!(!caps.contains(&Capability::Submit));
    assert!(!caps.contains(&Capability::Fork));
    assert!(!caps.contains(&Capability::Delegate));
    assert!(!caps.contains(&Capability::Approve));
    assert!(!caps.contains(&Capability::Admin));
}

#[test]
fn test_capability_set_to_vec() {
    let mut caps = CapabilitySet::new();
    caps.add(Capability::Read);
    caps.add(Capability::Submit);
    let vec = caps.to_vec();
    assert_eq!(vec.len(), 2);
    assert!(vec.contains(&Capability::Read));
    assert!(vec.contains(&Capability::Submit));
}

#[test]
fn capability_set_holds_each_member_once() {
    let caps = CapabilitySet::from_set(vec![
        Capability::Read,
        Capability::Read,
        Capability::Fork,
        Capability::Read,
    ]);
    assert_eq!(caps.to_vec(), vec![Capability::Read, Capability::Fork]);
    assert_eq!(caps.inner().len(), 2);
    assert_eq!(Capability::all().len(), 6);
}
