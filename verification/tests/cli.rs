use imap_safe_mail::cli::{
    after_applying, after_writing, fetch_options, fetch_summary, graph_or_default, missing_secret,
    missing_secret_quoting, sync_options, sync_summary, AfterApplying, AfterWriting, FetchOutput,
};
use imap_safe_mail::imap::{FetchedMessage, ImapSource, MailboxState, MailboxSync};
use imap_safe_mail::rdf::message_to_nquads;
use imap_safe_mail::sync::read_cursor;

#[test]
fn the_graph_defaults_to_the_user() {
    assert_eq!(graph_or_default(None, "me@x"), "urn:email:me@x");
    assert_eq!(graph_or_default(Some("urn:g".into()), "me@x"), "urn:g");
}

#[test]
fn a_missing_secret_is_named_in_quotes() {
    assert_eq!(
        missing_secret("A \"B\""),
        "authentication-secret environment variable \"A \\\"B\\\"\" is not set"
    );
    assert_eq!(
        missing_secret_quoting("X"),
        "authentication-secret environment variable X is not set"
    );
}

#[test]
fn only_fetching_writes_quads() {
    let fetch = fetch_options("https://d/".into(), None, "me", true);
    assert_eq!(fetch.data_iri, "https://d/");
    assert_eq!(fetch.graph, Some("urn:email:me".to_string()));
    assert!(fetch.include_body);
    let sync = sync_options("https://d/".into(), false);
    assert_eq!(sync.data_iri, "https://d/");
    assert_eq!(sync.graph, None);
    assert!(!sync.include_body);
}

#[test]
fn an_update_is_posted_to_the_endpoint() {
    assert_eq!(
        after_writing(Some("http://store/update"), "mail.ru"),
        AfterWriting::Apply {
            arguments: vec![
                "--fail-with-body".into(),
                "--silent".into(),
                "--show-error".into(),
                "--request".into(),
                "POST".into(),
                "--header".into(),
                "Content-Type: application/sparql-update".into(),
                "--data-binary".into(),
                "@mail.ru".into(),
                "http://store/update".into(),
            ],
        }
    );
}

#[test]
fn without_an_endpoint_the_cursor_stays() {
    assert_eq!(
        after_writing(None, "mail.ru"),
        AfterWriting::Notice("No --sparql-endpoint was given; the cursor was not advanced. Apply mail.ru and rerun with --sparql-endpoint to make an acknowledged incremental sync.".into())
    );
}

#[test]
fn a_cursor_is_kept_only_after_acceptance() {
    let state = MailboxState {
        uid_validity: 4,
        highest_mod_sequence: Some(9),
    };
    assert_eq!(
        after_applying(false, "exit status: 22", state),
        Err(
            "SPARQL endpoint rejected the update (curl exited with exit status: 22)".to_string()
        )
    );
    match after_applying(true, "exit status: 0", state) {
        Ok(AfterApplying::SaveCursor(content)) => {
            let cursor = read_cursor(Some(content.as_str())).unwrap().unwrap();
            assert_eq!(cursor.mailbox_state(), state);
        }
        other => panic!("unexpected {other:?}"),
    }
    assert_eq!(
        after_applying(
            true,
            "exit status: 0",
            MailboxState {
                highest_mod_sequence: None,
                ..state
            }
        ),
        Ok(AfterApplying::Notice("Server did not provide HIGHESTMODSEQ; no cursor was saved and the next run will be a full refresh.".into()))
    );
}

#[test]
fn runs_end_with_a_summary() {
    let mut result = MailboxSync {
        state: MailboxState {
            uid_validity: 4,
            highest_mod_sequence: Some(9),
        },
        changed: Vec::new(),
        vanished: vec![1, 2],
        used_qresync: true,
        full_refresh: false,
    };
    assert_eq!(
        sync_summary(&result, "mail.ru"),
        "Wrote 0 changed message(s) and 2 vanished UID(s) as QRESYNC delta to mail.ru"
    );
    result.used_qresync = false;
    assert_eq!(
        sync_summary(&result, "mail.ru"),
        "Wrote 0 changed message(s) and 2 vanished UID(s) as full refresh (QRESYNC unavailable, first run, or UIDVALIDITY changed) to mail.ru"
    );
    assert_eq!(fetch_summary(50, "mail.nq"), "Wrote 50 messages to mail.nq");
}

#[test]
fn messages_are_written_in_the_order_of_the_uids() {
    let message = |uid: u32| FetchedMessage {
        uid,
        source: ImapSource {
            account: "me".into(),
            mailbox: "INBOX".into(),
        },
        rfc822: b"Subject: x\r\n\r\n".to_vec(),
        is_seen: false,
        mod_sequence: None,
    };
    let options = || fetch_options("https://d/".into(), None, "me", false);
    let mut output = FetchOutput::new(vec![9, 4], options());
    assert_eq!(output.next_uid(), Some(9));
    assert_eq!(output.write(&message(4)), None);
    assert_eq!(
        output.write(&message(9)),
        Some(message_to_nquads(&message(9), &options()))
    );
    assert_eq!(output.next_uid(), Some(4));
    assert_eq!(output.summary("mail.nq"), "Wrote 1 messages to mail.nq");
    assert_eq!(
        output.write(&message(4)),
        Some(message_to_nquads(&message(4), &options()))
    );
    assert_eq!(output.next_uid(), None);
    assert_eq!(output.write(&message(4)), None);
    assert_eq!(output.summary("mail.nq"), "Wrote 2 messages to mail.nq");
}
