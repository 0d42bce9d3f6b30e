//! The catalog of saved machines.

use fut::machines::{
    add, add_with_id, check_label, check_new, file_to_write, find, list, mutate_locked, remove,
    rename, same_machines, set_enabled, validate_catalog, validate_label, validate_profile,
    CatalogFile, EditError, Error, Fault, Machine, CATALOG_VERSION, MAX_CATALOG_BYTES, MAX_LABEL_BYTES, MAX_MACHINES,
};
use fut::ssh_bridge::{validate_destination, DestinationFault};
use uuid::Uuid;

fn written(id: u128) -> String {
    Uuid::from_u128(id).to_string()
}

fn entry(id: u128, label: &str, target: &str) -> Machine {
    Machine { id, label: label.into(), target: target.into(), enabled: true }
}

#[test]
fn profiles_have_stable_ids_unique_labels_and_shared_targets() {
    let mut machines: Vec<Machine> = Vec::new();

    let work = add(&mut machines, "work", "user@work.example").unwrap();
    let again = add(&mut machines, "work-again", "user@work.example").unwrap();
    assert_ne!(work.id, again.id);
    assert!(work.enabled);
    assert!(matches!(
        add(&mut machines, "work", "other"),
        Err(Error::LabelTaken(label)) if label == "work"
    ));
    validate_profile("work", "other").unwrap();
    assert!(matches!(check_new(&machines, "work"), Err(Error::LabelTaken(_))));
    validate_profile("fresh", "other").unwrap();
    check_new(&machines, "fresh").unwrap();
    assert!(!machines.iter().any(|m| m.label == "fresh"));

    let renamed = rename(&mut machines, &written(work.id), "office").unwrap();
    assert!(renamed.changed);
    assert_eq!(renamed.machine.id, work.id);
    assert!(!rename(&mut machines, "office", "office").unwrap().changed);
    assert!(matches!(
        rename(&mut machines, "office", "work-again"),
        Err(Error::LabelTaken(_))
    ));
    assert_eq!(find(&machines, "office").unwrap().target, "user@work.example");
    assert!(matches!(
        find(&machines, "work"),
        Err(Error::NotFound(selector)) if selector == "work"
    ));

    assert!(set_enabled(&mut machines, "office", false).unwrap().changed);
    assert!(!set_enabled(&mut machines, "office", false).unwrap().changed);
    assert!(!find(&machines, "office").unwrap().enabled);
    assert!(set_enabled(&mut machines, &written(work.id), true).unwrap().changed);

    assert_eq!(remove(&mut machines, "office").unwrap().id, work.id);
    assert!(matches!(remove(&mut machines, "office"), Err(Error::NotFound(_))));
    assert_eq!(machines.len(), 1);
    assert_eq!(machines[0].id, again.id);
}

#[test]
fn labels_and_targets_are_strictly_bounded() {
    for label in ["work", "user@host", "clonk.local", "a"] {
        validate_label(label).unwrap();
    }
    for label in [
        "",
        "-work",
        "two words",
        "tab\there",
        "line\nbreak",
        "nul\0",
        &"x".repeat(MAX_LABEL_BYTES + 1),
        &Uuid::new_v4().to_string(),
    ] {
        assert!(validate_label(label).is_err(), "{label:?}");
    }
    let mut machines: Vec<Machine> = Vec::new();
    for target in [
        "",
        "-oProxyCommand=evil",
        "ssh://host",
        "user:password@host",
        "host\n",
        "host name",
    ] {
        assert!(add(&mut machines, "label", target).is_err(), "{target:?}");
        assert!(validate_profile("label", target).is_err(), "{target:?}");
    }
    validate_profile("unicode", "hôte").unwrap();
    check_new(&machines, "unicode").unwrap();
    assert!(machines.is_empty());
}

#[test]
fn catalog_is_bounded() {
    let mut machines: Vec<Machine> = Vec::new();
    for index in 0..MAX_MACHINES {
        add(&mut machines, &format!("machine-{index}"), "host").unwrap();
    }
    assert!(matches!(add(&mut machines, "one-more", "host"), Err(Error::Full)));
    assert!(matches!(check_new(&machines, "one-more"), Err(Error::Full)));
    assert_eq!(machines.len(), MAX_MACHINES);
    assert_eq!(MAX_MACHINES, 256);
    assert_eq!(MAX_CATALOG_BYTES, 256 * 1024);
    assert_eq!(
        Error::Full.text(),
        "the machine catalog cannot contain more than 256 machines"
    );
}

#[test]
fn malformed_or_unsafe_catalogs_are_rejected_whole() {
    let id = Uuid::new_v4().as_u128();
    let file = |machines| CatalogFile { version: CATALOG_VERSION, machines };
    for (file, message) in [
        (CatalogFile { version: 2, machines: Vec::new() }, "version"),
        (file(vec![entry(id, "work", "user:secret@host")]), "password"),
        (file(vec![entry(id, "work", "ssh://host")]), "URI"),
        (
            file(vec![entry(id, "work", "host"), entry(id, "work", "other")]),
            "duplicate",
        ),
    ] {
        let error = validate_catalog(&file).unwrap_err().text();
        assert!(error.contains(message), "{error}");
    }
}

#[test]
fn each_catalog_fault_is_named() {
    let fault = |machines| {
        validate_catalog(&CatalogFile { version: CATALOG_VERSION, machines }).unwrap_err()
    };
    assert_eq!(
        fault(vec![entry(1, "a", "host"), entry(1, "b", "host")]).text(),
        "machine catalog contains duplicate id 00000000-0000-0000-0000-000000000001"
    );
    assert_eq!(
        fault(vec![entry(1, "a\"b", "host"), entry(2, "a\"b", "host")]).text(),
        "machine catalog contains duplicate label \"a\\\"b\""
    );
    let many: Vec<Machine> = (0..257).map(|n| entry(n, &format!("m{n}"), "host")).collect();
    assert_eq!(fault(many).text(), "machine catalog contains more than 256 machines");
    let version = validate_catalog(&CatalogFile { version: 7, machines: Vec::new() });
    assert_eq!(
        version.unwrap_err().text(),
        "unsupported machine catalog version 7; expected 1"
    );
    assert_eq!(
        fault(vec![entry(1, "-a", "host")]),
        Fault::LabelDash
    );
    assert_eq!(
        Fault::LabelDash.text(),
        "machine label must not start with a dash"
    );
    assert_eq!(validate_label(""), Err(Fault::LabelLength));
    assert_eq!(Fault::LabelLength.text(), "machine label must be 1 to 64 bytes");
    validate_label(&"é".repeat(32)).unwrap();
    assert_eq!(validate_label(&"é".repeat(33)), Err(Fault::LabelLength));
    assert_eq!(validate_label("a\u{2003}b"), Err(Fault::LabelCharacters));
    assert_eq!(
        Fault::LabelCharacters.text(),
        "machine label must not contain whitespace or control characters"
    );
    assert_eq!(validate_label(&written(5)), Err(Fault::LabelUuid));
    assert_eq!(Fault::LabelUuid.text(), "machine label must not be a UUID");
    assert_eq!(check_label("plain", Some(5)), Err(Fault::LabelUuid));
}

#[test]
fn each_destination_fault_is_named() {
    for (target, fault) in [
        ("", DestinationFault::Empty),
        ("-v", DestinationFault::LeadingDash),
        ("two words", DestinationFault::Characters),
        ("ssh://host", DestinationFault::Uri),
        ("user:secret@host", DestinationFault::Password),
    ] {
        assert_eq!(validate_destination(target), Err(fault));
        assert!(!fault.text().is_empty());
    }
    validate_destination("user@host").unwrap();
    validate_destination("::1").unwrap();
}

#[test]
fn errors_quote_what_was_asked_for() {
    let machines: Vec<Machine> = Vec::new();
    assert_eq!(
        find(&machines, "a\tb").unwrap_err().text(),
        "no saved machine matches \"a\\tb\""
    );
    assert_eq!(
        Error::LabelTaken("work".into()).text(),
        "a saved machine is already labeled \"work\""
    );
}

#[test]
fn identities_select_in_any_spelling_and_labels_exactly() {
    let id = 0x0123_4567_89ab_4def_8123_4567_89ab_cdef;
    let machines = vec![entry(1, "other", "host"), entry(id, "work", "host")];
    for selector in [
        "01234567-89ab-4def-8123-456789abcdef",
        "0123456789AB4DEF8123456789ABCDEF",
        "{01234567-89ab-4def-8123-456789abcdef}",
        "urn:uuid:01234567-89ab-4def-8123-456789abcdef",
        "work",
    ] {
        assert_eq!(find(&machines, selector).unwrap().id, id, "{selector}");
    }
    assert!(find(&machines, "Work").is_err());
    let spelled = vec![entry(1, &written(5), "host"), entry(5, "b", "host")];
    assert_eq!(find(&spelled, &written(5)).unwrap().id, 5);
}

#[test]
fn fresh_identities_are_random_ones() {
    let mut machines: Vec<Machine> = Vec::new();
    let added = add(&mut machines, "work", "host").unwrap();
    assert_eq!(Uuid::from_u128(added.id).get_version_num(), 4);
    assert_eq!(machines, [added]);
}

#[test]
fn only_a_changed_catalog_is_written() {
    let mut machines = vec![entry(1, "work", "host")];
    let before = machines.clone();
    set_enabled(&mut machines, "work", true).unwrap();
    assert!(same_machines(&before, &machines));
    assert!(file_to_write(&before, machines.clone()).unwrap().is_none());
    set_enabled(&mut machines, "work", false).unwrap();
    let file = file_to_write(&before, machines.clone()).unwrap().unwrap();
    assert_eq!(file.version, 1);
    assert_eq!(file.machines, machines);
    add_with_id(&mut machines, 1, "again", "host").unwrap();
    assert_eq!(
        file_to_write(&before, machines).unwrap_err(),
        Fault::DuplicateId(1)
    );
}

#[test]
fn a_removal_undoes_an_addition() {
    let mut machines = vec![entry(1, "work", "host")];
    let before = machines.clone();
    let added = add(&mut machines, "other", "host").unwrap();
    let removed = remove(&mut machines, "other").unwrap();
    assert_eq!(removed, added);
    assert_eq!(machines, before);
}

#[test]
fn a_missing_catalog_is_empty_and_an_invalid_one_rejected() {
    assert_eq!(list(None), Ok(Vec::new()));
    let machines = vec![entry(1, "work", "host")];
    let file = CatalogFile { version: CATALOG_VERSION, machines: machines.clone() };
    assert_eq!(list(Some(file)), Ok(machines.clone()));
    let file = CatalogFile { version: 2, machines };
    assert_eq!(list(Some(file)), Err(Fault::Version(2)));
}

#[test]
fn an_edit_is_whole_or_nothing() {
    let stored = || {
        let machines = vec![entry(1, "work", "host")];
        Some(CatalogFile { version: CATALOG_VERSION, machines })
    };

    let commit = mutate_locked(stored(), |mut machines| {
        let result = rename(&mut machines, "work", "office");
        (result, machines)
    })
    .unwrap();
    assert!(commit.result.changed);
    let file = commit.file.unwrap();
    assert_eq!(file.version, CATALOG_VERSION);
    let listed = list(Some(file)).unwrap();
    assert_eq!(listed, vec![entry(1, "office", "host")]);

    let commit = mutate_locked(stored(), |mut machines| {
        let result = rename(&mut machines, "work", "work");
        (result, machines)
    })
    .unwrap();
    assert!(!commit.result.changed);
    assert!(commit.file.is_none());

    let refused = mutate_locked(stored(), |mut machines| {
        let result = remove(&mut machines, "office");
        (result, machines)
    });
    assert!(matches!(refused, Err(EditError::Refused(Error::NotFound(_)))));

    let invalid = mutate_locked(stored(), |mut machines| {
        machines[0].label = String::new();
        (Ok(()), machines)
    });
    assert!(matches!(invalid, Err(EditError::Invalid(_))));

    let commit = mutate_locked(None, |mut machines| {
        let result = add_with_id(&mut machines, 1, "work", "host");
        (result, machines)
    })
    .unwrap();
    assert_eq!(commit.file.unwrap().machines, vec![entry(1, "work", "host")]);

    let unknown = Some(CatalogFile { version: CATALOG_VERSION + 1, machines: Vec::new() });
    let unusable = mutate_locked(unknown, |_| -> (Result<(), Error>, Vec<Machine>) {
        panic!("an unusable catalog is not edited")
    });
    assert!(matches!(unusable, Err(EditError::Stored(_))));
}
