use bookmarks::error::StoreError;
use bookmarks::keys::Command;

const COMMANDS: [Command; 7] = [
    Command::Quit,
    Command::DeleteSelected,
    Command::YankSelected,
    Command::PasteAfterSelected,
    Command::SelectNext,
    Command::SelectPrevious,
    Command::Nothing,
];

#[test]
fn clipboard_failure_on_yank_or_delete_is_survivable() {
    assert!(!StoreError::ClipboardUnavailable.ends_session(Command::YankSelected));
    assert!(!StoreError::ClipboardUnavailable.ends_session(Command::DeleteSelected));
}

#[test]
fn clipboard_failure_on_paste_ends_session() {
    assert!(StoreError::ClipboardUnavailable.ends_session(Command::PasteAfterSelected));
}

#[test]
fn file_failures_always_end_session() {
    for command in COMMANDS {
        assert!(StoreError::StartupFileMissing.ends_session(command));
        assert!(StoreError::FileIo.ends_session(command));
        assert!(StoreError::IndexOutOfRange.ends_session(command));
    }
}
