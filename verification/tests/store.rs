use imap_safe_mail::{InMemoryMailStore, MailError, MailEvent, MailStore, MailboxRole, MessageId};

fn store() -> InMemoryMailStore {
    let mut store = InMemoryMailStore::new();
    store.add_mailbox("INBOX", MailboxRole::Inbox);
    store.add_mailbox("Trash", MailboxRole::Trash);
    store.add_mailbox("Archive", MailboxRole::Archive);
    store.add_message("INBOX", MessageId::new("uid:7")).unwrap();
    store
}

#[test]
fn trash_moves_message_to_special_mailbox_and_audits_it() {
    let mut store = store();
    let id = MessageId::new("uid:7");

    store.trash(&id).unwrap();

    assert_eq!(store.mailbox_of(&id), Some("Trash"));
    assert_eq!(
        store.events(),
        &[MailEvent::Trashed {
            message: id,
            from: "INBOX".into(),
            to: "Trash".into(),
        }]
    );
}

#[test]
fn restore_moves_a_trashed_message_to_a_normal_mailbox() {
    let mut store = store();
    let id = MessageId::new("uid:7");
    store.trash(&id).unwrap();

    store.restore(&id, "Archive").unwrap();

    assert_eq!(store.mailbox_of(&id), Some("Archive"));
    assert!(matches!(
        store.events().last(),
        Some(MailEvent::Restored { .. })
    ));
}

#[test]
fn restore_refuses_to_target_trash() {
    let mut store = store();
    let id = MessageId::new("uid:7");

    assert_eq!(
        store.restore(&id, "Trash"),
        Err(MailError::DestinationIsTrash("Trash".into()))
    );
}

#[test]
fn trash_requires_a_discovered_trash_mailbox() {
    let mut store = InMemoryMailStore::new();
    store.add_mailbox("INBOX", MailboxRole::Inbox);
    let id = MessageId::new("uid:7");
    store.add_message("INBOX", id.clone()).unwrap();

    assert_eq!(store.trash(&id), Err(MailError::TrashMailboxMissing));
}

#[test]
fn a_message_can_be_trashed_and_restored_to_where_it_was() {
    let mut mail = InMemoryMailStore::new();
    mail.add_mailbox("INBOX", MailboxRole::Inbox);
    mail.add_mailbox("Trash", MailboxRole::Trash);
    mail.add_message("INBOX", MessageId::new("42")).unwrap();
    mail.add_message("INBOX", MessageId::new("43")).unwrap();

    mail.trash(&MessageId::new("42")).unwrap();
    mail.restore(&MessageId::new("42"), "INBOX").unwrap();

    assert_eq!(mail.mailbox_of(&MessageId::new("42")), Some("INBOX"));
    assert_eq!(mail.mailbox_of(&MessageId::new("43")), Some("INBOX"));
    assert_eq!(
        mail.events(),
        &[
            MailEvent::Trashed {
                message: MessageId::new("42"),
                from: "INBOX".into(),
                to: "Trash".into(),
            },
            MailEvent::Restored {
                message: MessageId::new("42"),
                from: "Trash".into(),
                to: "INBOX".into(),
            },
        ]
    );
}

#[test]
fn refusals_change_nothing() {
    let mut mail = store();
    let id = MessageId::new("uid:7");
    let other = MessageId::new("uid:8");

    assert_eq!(
        mail.trash(&other),
        Err(MailError::MessageNotFound(other.clone()))
    );
    assert_eq!(
        mail.restore(&other, "INBOX"),
        Err(MailError::MessageNotFound(other.clone()))
    );
    assert_eq!(
        mail.restore(&id, "Nowhere"),
        Err(MailError::DestinationMissing("Nowhere".into()))
    );
    assert_eq!(
        mail.add_message("Nowhere", other.clone()),
        Err(MailError::DestinationMissing("Nowhere".into()))
    );
    assert_eq!(mail.mailbox_of(&id), Some("INBOX"));
    assert_eq!(mail.mailbox_of(&other), None);
    assert!(mail.events().is_empty());
}

#[test]
fn a_message_in_the_trash_cannot_be_trashed_again() {
    let mut mail = store();
    let id = MessageId::new("uid:7");
    mail.trash(&id).unwrap();

    assert_eq!(
        mail.trash(&id),
        Err(MailError::MessageAlreadyInTrash(id.clone()))
    );
    assert_eq!(mail.events().len(), 1);
}

#[test]
fn of_several_trash_mailboxes_the_first_by_name_is_used() {
    let mut mail = InMemoryMailStore::new();
    mail.add_mailbox("Mail", MailboxRole::Normal);
    mail.add_mailbox("trash", MailboxRole::Trash);
    mail.add_mailbox("Trash", MailboxRole::Trash);
    mail.add_mailbox("Über", MailboxRole::Trash);
    let id = MessageId::new("1");
    mail.add_message("Mail", id.clone()).unwrap();

    mail.trash(&id).unwrap();
    assert_eq!(mail.mailbox_of(&id), Some("Trash"));

    mail.add_mailbox("Trash", MailboxRole::Normal);
    mail.trash(&id).unwrap();
    assert_eq!(mail.mailbox_of(&id), Some("trash"));
}

#[test]
fn errors_are_described() {
    let id = MessageId::new("uid:7");
    assert_eq!(
        MailError::MessageNotFound(id.clone()).describe(),
        "message uid:7 was not found"
    );
    assert_eq!(
        MailError::TrashMailboxMissing.describe(),
        "no mailbox with the Trash role exists"
    );
    assert_eq!(
        MailError::DestinationMissing("a \"b\"".into()).describe(),
        "mailbox \"a \\\"b\\\"\" does not exist"
    );
    assert_eq!(
        MailError::DestinationIsTrash("Trash".into()).describe(),
        "cannot restore to Trash mailbox \"Trash\""
    );
    assert_eq!(
        MailError::MessageAlreadyInTrash(id.clone()).describe(),
        "message uid:7 is already in Trash"
    );
    assert_eq!(id.as_str(), "uid:7");
    assert!(MessageId::new("a") < MessageId::new("b"));
}
