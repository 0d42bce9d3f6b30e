//! State files: where they stand and which are trusted.

use fut::duration::Duration;
use fut::state_file::{
    check_directory, check_length, check_parent, contents, fresh_temporary_name, inspect, join,
    length_text, lock_pause, path_from, polled_lock, read_limit, temporary_name, waiting_lock,
    FileMetadata, LocationFault, LockAction, LockAttempt, ParentAction, ParentFault,
    ParentStep, ReadFault, WriteAction, WriteRefusal, WriteStep, DIRECTORY_MODE, FILE_MODE,
    REGULAR_TYPE,
};

fn located(
    file_name: &str,
    xdg_state_home: Option<&str>,
    home: Option<&str>,
) -> Result<String, LocationFault> {
    path_from(
        file_name.as_bytes(),
        xdg_state_home.map(str::as_bytes),
        home.map(str::as_bytes),
    )
    .map(|path| String::from_utf8(path).unwrap())
}

#[test]
fn location_prefers_valid_xdg_and_validates_fallback_home() {
    assert_eq!(
        located("machines.toml", Some("/state"), None).unwrap(),
        "/state/fut/machines.toml"
    );
    assert_eq!(
        located("trusted-recipes.toml", None, Some("/home/user")).unwrap(),
        "/home/user/.local/state/fut/trusted-recipes.toml"
    );
    assert_eq!(
        located("machines.toml", Some(""), Some("/home/user")).unwrap(),
        "/home/user/.local/state/fut/machines.toml"
    );
    assert!(located("machines.toml", Some("relative"), None).is_err());
    assert!(located("machines.toml", None, Some("relative")).is_err());
    assert!(located("machines.toml", None, None).is_err());
}

#[test]
fn each_location_fault_is_named() {
    let fault = |xdg, home| located("x", xdg, home).unwrap_err();
    assert_eq!(fault(Some("relative"), Some("/home")), LocationFault::RelativeStateHome);
    assert_eq!(fault(None, Some("relative")), LocationFault::RelativeHome);
    assert_eq!(fault(Some(""), Some("")), LocationFault::NoHome);
    assert_eq!(
        LocationFault::RelativeStateHome.text(),
        "XDG_STATE_HOME must be an absolute path when resolving Fut state"
    );
    assert_eq!(
        LocationFault::NoHome.text(),
        "HOME must be set when XDG_STATE_HOME is not set"
    );
    assert_eq!(
        LocationFault::RelativeHome.text(),
        "HOME must be an absolute path when resolving Fut state"
    );
}

#[test]
fn paths_are_joined_as_the_system_does() {
    for (base, path) in [
        ("/a", "b"),
        ("/a/", "b"),
        ("/a", "/b"),
        ("", "b"),
        ("/", "b/c"),
        ("/a", ""),
    ] {
        let expected = std::path::Path::new(base).join(path);
        assert_eq!(
            String::from_utf8(join(base.as_bytes(), path.as_bytes())).unwrap(),
            expected.to_str().unwrap()
        );
    }
}

#[test]
fn only_private_bounded_regular_files_are_trusted() {
    let file = FileMetadata { regular: true, mode: 0o100600, length: 64 };
    assert_eq!(inspect(file, 64), Ok(()));
    assert_eq!(
        inspect(FileMetadata { regular: false, ..file }, 64),
        Err(ReadFault::NotRegular)
    );
    for mode in [0o100644, 0o100601, 0o104600, 0o100400] {
        assert_eq!(
            inspect(FileMetadata { mode, ..file }, 64),
            Err(ReadFault::Permissions)
        );
    }
    assert_eq!(
        inspect(file, 3),
        Err(ReadFault::Length { length: 64, maximum: 3 })
    );
    assert_eq!(read_limit(64), 65);
    assert_eq!(contents(b"a = 1\n".to_vec(), 64), Ok("a = 1\n".to_string()));
    assert_eq!(contents(vec![0xc3, 0x28], 64), Err(ReadFault::NotText));
    assert_eq!(
        contents(b"1234".to_vec(), 3),
        Err(ReadFault::Grown { maximum: 3 })
    );
}

#[test]
fn read_faults_name_the_file() {
    assert_eq!(ReadFault::NotRegular.text("/x"), "/x is not a regular file");
    assert_eq!(ReadFault::Permissions.text("/x"), "/x must have permissions 0600");
    assert_eq!(
        ReadFault::Length { length: 10, maximum: 3 }.text("/x"),
        "/x is 10 bytes; maximum is 3"
    );
    assert_eq!(
        ReadFault::Grown { maximum: 3 }.text("/x"),
        "/x exceeds the 3-byte maximum"
    );
    assert_eq!(ReadFault::NotText.text("/x"), "/x is not UTF-8");
}

#[test]
fn writes_are_bounded_in_bytes() {
    assert!(check_length(&"x".repeat(64), 64));
    assert!(!check_length(&"x".repeat(65), 64));
    assert!(check_length("éé", 4));
    assert!(!check_length("éé", 3));
    assert_eq!(
        length_text("/x", 64),
        "updated /x exceeds the 64-byte maximum"
    );
}

#[test]
fn a_replacement_renames_only_what_is_complete() {
    let mut performed = vec![WriteStep::Create];
    loop {
        match performed.last().unwrap().next(true) {
            WriteAction::Perform(step) => performed.push(step),
            WriteAction::Done => break,
            action => panic!("{action:?}"),
        }
    }
    assert_eq!(
        performed,
        [
            WriteStep::Create,
            WriteStep::Secure,
            WriteStep::Write,
            WriteStep::Sync,
            WriteStep::Rename,
            WriteStep::SyncDirectory,
        ]
    );
    for step in performed {
        assert_eq!(step.next(false), WriteAction::RemoveAndFail(step));
        assert!(step.text().ends_with(' '));
    }
    assert_eq!(WriteStep::Rename.text(), "atomically replace ");
}

#[test]
fn temporary_files_are_hidden_and_unique() {
    assert_eq!(
        temporary_name("machines.toml", 1),
        ".machines.toml.00000000-0000-0000-0000-000000000001.tmp"
    );
    let first = fresh_temporary_name("machines.toml");
    assert_ne!(first, fresh_temporary_name("machines.toml"));
    assert!(first.starts_with(".machines.toml."));
    assert!(first.ends_with(".tmp"));
    assert_eq!(first.len(), temporary_name("machines.toml", 1).len());
}

#[test]
fn parents_must_be_directories() {
    assert_eq!(check_parent(Some(b"/state/fut")), Ok(()));
    assert_eq!(check_parent(Some(b"")), Err(ParentFault::Missing));
    assert_eq!(check_parent(None), Err(ParentFault::Missing));
    assert_eq!(check_directory(true), Ok(()));
    assert_eq!(check_directory(false), Err(ParentFault::NotDirectory));
    assert_eq!(ParentFault::Missing.text("x"), "x must have a parent directory");
    assert_eq!(ParentFault::NotDirectory.text("/x"), "/x is not a directory");
}

#[test]
fn locks_are_tried_again_only_for_their_reason() {
    assert_eq!(waiting_lock(LockAttempt::Taken), LockAction::Hold);
    assert_eq!(waiting_lock(LockAttempt::Interrupted), LockAction::Retry);
    assert_eq!(waiting_lock(LockAttempt::WouldBlock), LockAction::Fail);
    assert_eq!(waiting_lock(LockAttempt::Failed), LockAction::Fail);
    assert_eq!(polled_lock(LockAttempt::Taken), LockAction::Hold);
    assert_eq!(polled_lock(LockAttempt::WouldBlock), LockAction::Pause);
    assert_eq!(polled_lock(LockAttempt::Interrupted), LockAction::Fail);
    assert_eq!(polled_lock(LockAttempt::Failed), LockAction::Fail);
    assert_eq!(lock_pause(), Duration::from_millis(10));
}

#[test]
fn a_write_that_is_refused_touches_nothing() {
    let begin = |maximum, parent| fut::state_file::write("a = 1\n", maximum, parent);
    let parent: Option<&[u8]> = Some(b"/state/fut");
    assert_eq!(begin(6, parent), Ok(ParentStep::Create));
    assert_eq!(begin(5, parent), Err(WriteRefusal::Length));
    assert_eq!(begin(5, None), Err(WriteRefusal::Length));
    assert_eq!(
        begin(6, Some(b"")),
        Err(WriteRefusal::Parent(ParentFault::Missing))
    );
}

#[test]
fn a_parent_is_inspected_before_it_is_secured() {
    let mut performed = vec![ParentStep::Create];
    loop {
        match performed.last().unwrap().next(true) {
            ParentAction::Perform(step) => performed.push(step),
            ParentAction::Done => break,
            action => panic!("{action:?}"),
        }
    }
    assert_eq!(
        performed,
        [ParentStep::Create, ParentStep::Inspect, ParentStep::Secure]
    );
    for step in performed {
        assert_eq!(step.next(false), ParentAction::Fail(step));
    }
    assert_eq!(ParentStep::Create.text(), "create directory ");
    assert_eq!(ParentStep::Inspect.text(), "inspect directory ");
    assert_eq!(ParentStep::Secure.text(), "secure directory ");
    assert_eq!(DIRECTORY_MODE, 0o700);
}

#[test]
fn what_was_written_is_trusted_and_read_back() {
    let text = "label = \"bürö\"\n";
    let length = text.len() as u64;
    let metadata = FileMetadata { regular: true, mode: REGULAR_TYPE | FILE_MODE, length };
    assert!(check_length(text, length));
    assert_eq!(inspect(metadata, length), Ok(()));
    assert_eq!(contents(text.as_bytes().to_vec(), length), Ok(text.to_string()));
}
