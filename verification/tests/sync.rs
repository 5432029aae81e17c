use imap_safe_mail::imap::{FetchedMessage, ImapSource, MailboxState, MailboxSync};
use imap_safe_mail::rdf::{
    delete_mailbox_update, delete_message_update, delete_uid_update, insert_message_update,
    RdfOptions,
};
use imap_safe_mail::sync::{
    read_cursor, save_steps, sparql_update, write_cursor, CursorError, SaveStep, SyncCursor,
};

#[test]
fn serializes_deletions_and_insertions_in_the_selected_graph() {
    let message = FetchedMessage {
        uid: 7,
        source: ImapSource {
            account: "me@example.test".into(),
            mailbox: "INBOX".into(),
        },
        rfc822: b"Subject: hi\r\n\r\n".to_vec(),
        is_seen: false,
        mod_sequence: Some(9),
    };
    let sync = MailboxSync {
        state: MailboxState {
            uid_validity: 4,
            highest_mod_sequence: Some(9),
        },
        changed: vec![message],
        vanished: vec![6],
        used_qresync: true,
        full_refresh: false,
    };
    let update = sparql_update(
        "me@example.test",
        "INBOX",
        "urn:test",
        &sync,
        &RdfOptions::default(),
    );
    assert!(update.contains("DELETE { GRAPH <urn:test>"));
    assert!(update.contains("uid=6"));
    assert!(update.contains("INSERT DATA { GRAPH <urn:test>"));
}

fn message(uid: u32) -> FetchedMessage {
    FetchedMessage {
        uid,
        source: ImapSource {
            account: "me".into(),
            mailbox: "INBOX".into(),
        },
        rfc822: b"Subject: hi\r\n\r\n".to_vec(),
        is_seen: false,
        mod_sequence: None,
    }
}

fn result(full_refresh: bool, vanished: Vec<u32>, changed: Vec<FetchedMessage>) -> MailboxSync {
    MailboxSync {
        state: MailboxState {
            uid_validity: 4,
            highest_mod_sequence: None,
        },
        changed,
        vanished,
        used_qresync: !full_refresh,
        full_refresh,
    }
}

#[test]
fn a_delta_without_changes_is_an_empty_update() {
    let sync = result(false, Vec::new(), Vec::new());
    assert_eq!(
        sparql_update("me", "INBOX", "urn:g", &sync, &RdfOptions::default()),
        ""
    );
}

#[test]
fn vanished_messages_are_deleted_before_changed_ones_are_replaced() {
    let options = RdfOptions::default();
    let sync = result(false, vec![3, 2], vec![message(7), message(8)]);
    let mut expected = String::new();
    expected.push_str(&delete_uid_update("me", "INBOX", 3, "urn:g"));
    expected.push_str(&delete_uid_update("me", "INBOX", 2, "urn:g"));
    expected.push_str(&delete_message_update(&message(7), "urn:g"));
    expected.push_str(&insert_message_update(&message(7), "urn:g", &options));
    expected.push_str(&delete_message_update(&message(8), "urn:g"));
    expected.push_str(&insert_message_update(&message(8), "urn:g", &options));
    assert_eq!(
        sparql_update("me", "INBOX", "urn:g", &sync, &options),
        expected
    );
}

#[test]
fn a_full_refresh_clears_the_mailbox_first() {
    let options = RdfOptions::default();
    let delta = sparql_update(
        "me",
        "INBOX",
        "urn:g",
        &result(false, Vec::new(), vec![message(7)]),
        &options,
    );
    let full = sparql_update(
        "me",
        "INBOX",
        "urn:g",
        &result(true, Vec::new(), vec![message(7)]),
        &options,
    );
    assert_eq!(
        full,
        format!("{}{delta}", delete_mailbox_update("me", "INBOX", "urn:g"))
    );
}

#[test]
fn a_missing_cursor_is_a_first_run() {
    assert_eq!(read_cursor(None), Ok(None));
}

#[test]
fn cursors_are_read_as_they_were_written() {
    let state = MailboxState {
        uid_validity: 4294967295,
        highest_mod_sequence: Some(18446744073709551615),
    };
    let content = write_cursor(state).unwrap();
    assert_eq!(
        content,
        "version=1\nuid_validity=4294967295\nhighest_mod_sequence=18446744073709551615\n"
    );
    let cursor = read_cursor(Some(content.as_str())).unwrap().unwrap();
    assert_eq!(
        cursor,
        SyncCursor {
            uid_validity: 4294967295,
            highest_mod_sequence: 18446744073709551615,
        }
    );
    assert_eq!(cursor.mailbox_state(), state);
}

#[test]
fn a_cursor_needs_a_modification_sequence() {
    let error = write_cursor(MailboxState {
        uid_validity: 1,
        highest_mod_sequence: None,
    })
    .unwrap_err();
    assert_eq!(error, CursorError::NoModSequence);
    assert_eq!(
        error.describe(),
        "server did not provide HIGHESTMODSEQ; cannot safely create a QRESYNC cursor"
    );
}

#[test]
fn the_last_line_of_a_key_counts() {
    assert_eq!(
        read_cursor(Some(
            "highest_mod_sequence=+7\r\nuid_validity=x\nnoise\nuid_validity=007"
        )),
        Ok(Some(SyncCursor {
            uid_validity: 7,
            highest_mod_sequence: 7,
        }))
    );
    assert_eq!(
        read_cursor(Some("uid_validity=7\nhighest_mod_sequence=7\nuid_validity=")),
        Err(CursorError::Invalid)
    );
}

#[test]
fn a_cursor_without_both_numbers_is_invalid() {
    for content in [
        "",
        "uid_validity=1\n",
        "highest_mod_sequence=1\n",
        "uid_validity=4294967296\nhighest_mod_sequence=1\n",
        "uid_validity=1\nhighest_mod_sequence=18446744073709551616\n",
        "uid_validity=-1\nhighest_mod_sequence=1\n",
        "uid_validity=+\nhighest_mod_sequence=1\n",
        "uid_validity= 1\nhighest_mod_sequence=1\n",
        " uid_validity=1\nhighest_mod_sequence=1\n",
    ] {
        assert_eq!(read_cursor(Some(content)), Err(CursorError::Invalid));
    }
    assert_eq!(CursorError::Invalid.describe(), "invalid IMAP sync cursor");
}

#[test]
fn a_cursor_is_written_beside_the_old_one_first() {
    assert_eq!(
        save_steps("version=1\n"),
        vec![
            SaveStep::CreateDirectory,
            SaveStep::WriteTemporary("version=1\n".into()),
            SaveStep::RenameTemporary,
        ]
    );
}

#[test]
fn an_update_of_two_lists_is_one_after_the_other() {
    let options = RdfOptions::default();
    let update = |changed: Vec<FetchedMessage>, vanished: Vec<u32>, full: bool| {
        sparql_update("me", "INBOX", "urn:g", &result(full, vanished, changed), &options)
    };
    assert_eq!(
        update(vec![message(1), message(2)], vec![3], false),
        format!(
            "{}{}",
            update(vec![message(1)], vec![3], false),
            update(vec![message(2)], Vec::new(), false)
        )
    );
}
