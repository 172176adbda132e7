use outer::models::BlockStatus::{Complete, Error, Pending, Streaming};
use outer::models::{BlockStatus, BlockType};

#[test]
fn test_block_type_as_str() {
    assert_eq!(BlockType::User.as_str(), "user");
    assert_eq!(BlockType::Assistant.as_str(), "assistant");
}

#[test]
fn test_block_type_from_str() {
    assert_eq!("user".parse::<BlockType>().unwrap(), BlockType::User);
    assert_eq!(
        "assistant".parse::<BlockType>().unwrap(),
        BlockType::Assistant
    );
}

#[test]
fn test_block_type_from_str_invalid() {
    let result = "invalid".parse::<BlockType>();
    assert!(result.is_err());
    assert_eq!(result.unwrap_err(), "Invalid block type: invalid");
}

#[test]
fn test_block_status_as_str() {
    assert_eq!(BlockStatus::Pending.as_str(), "pending");
    assert_eq!(BlockStatus::Streaming.as_str(), "streaming");
    assert_eq!(BlockStatus::Complete.as_str(), "complete");
    assert_eq!(BlockStatus::Error.as_str(), "error");
}

#[test]
fn test_block_status_from_str() {
    assert_eq!(
        "pending".parse::<BlockStatus>().unwrap(),
        BlockStatus::Pending
    );
    assert_eq!(
        "streaming".parse::<BlockStatus>().unwrap(),
        BlockStatus::Streaming
    );
    assert_eq!(
        "complete".parse::<BlockStatus>().unwrap(),
        BlockStatus::Complete
    );
    assert_eq!("error".parse::<BlockStatus>().unwrap(), BlockStatus::Error);
}

#[test]
fn test_block_status_from_str_invalid() {
    let result = "invalid".parse::<BlockStatus>();
    assert!(result.is_err());
    assert_eq!(result.unwrap_err(), "Invalid block status: invalid");
}

#[test]
fn block_status_moves_forward_only() {
    assert!(Pending.can_become(Streaming));
    assert!(Pending.can_become(Error));
    assert!(Streaming.can_become(Complete));
    assert!(Streaming.can_become(Error));
    assert!(Streaming.can_become(Streaming));
    assert!(!Streaming.can_become(Pending));
    assert!(!Complete.can_become(Error));
    assert!(!Complete.can_become(Streaming));
    assert!(!Error.can_become(Complete));
    assert!(Complete.can_become(Complete));
    assert!(Complete.is_terminal() && Error.is_terminal());
    assert!(!Pending.is_terminal() && !Streaming.is_terminal());
    assert_eq!(BlockType::User.starting_status(), Complete);
    assert_eq!(BlockType::Assistant.starting_status(), Pending);
}

#[test]
fn names_are_read_through_from_str() {
    assert_eq!("user".parse::<BlockType>(), Ok(BlockType::User));
    assert_eq!("assistant".parse::<BlockType>(), Ok(BlockType::Assistant));
    assert_eq!("User".parse::<BlockType>(), Err("Invalid block type: User".to_string()));
    assert_eq!("streaming".parse::<BlockStatus>(), Ok(BlockStatus::Streaming));
    assert_eq!("".parse::<BlockStatus>(), Err("Invalid block status: ".to_string()));
}
