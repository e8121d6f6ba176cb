use agent_stream_app::error::{Invalid, IoStep, StoreError};

#[test]
fn each_error_has_its_text() {
    assert_eq!(StoreError::Validation(Invalid::NotAFlowFile).message(), "Invalid file extension");
    assert_eq!(StoreError::Validation(Invalid::EmptyName).message(), "Agent flow name is empty");
    assert_eq!(StoreError::Validation(Invalid::MalformedSegment).message(), "Invalid agent flow name");
    assert_eq!(StoreError::NotFound("Failed to get home directory".to_string()).message(), "Failed to get home directory");
    assert_eq!(StoreError::Conflict("a/b.json".to_string()).message(), "Agent flow file already exists: a/b.json");
    assert_eq!(StoreError::Parse("Invalid settings format".to_string()).message(), "Invalid settings format");
    assert_eq!(StoreError::Engine("Agent flow x not found".to_string()).message(), "Agent flow x not found");
}

#[test]
fn io_errors_name_the_step() {
    let cases = [
        (IoStep::CreateFlowsDir, "Failed to create flows directory: c"),
        (IoStep::ReadDir, "Failed to read directory: c"),
        (IoStep::ReadEntry, "Failed to read directory entry: c"),
        (IoStep::ReadFile, "Failed to read agent flow file: c"),
        (IoStep::CreateParentDir, "Failed to create parent directory: c"),
        (IoStep::WriteFile, "Failed to write agent flow file: c"),
        (IoStep::RemoveFile, "Failed to remove agent flow file: c"),
        (IoStep::MoveFile, "Failed to rename old agent flow file: c"),
    ];
    for (step, text) in cases {
        assert_eq!(StoreError::Io(step, "c".to_string()).message(), text);
    }
}
