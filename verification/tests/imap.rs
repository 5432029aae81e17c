use imap_safe_mail::imap::{
    fetched_message, mailbox_uri, uid_uri, Authentication, Capabilities, Command, ConnectPlan,
    FetchItem, FetchedMessage, ImapSource, ListedMailbox, Login, MailReader, MailboxState,
    MessageFlag, ReadError, SaslResponse, SelectedMailbox, SyncAnswers, UidRange, Unsolicited,
    ENABLE, ENABLE_QRESYNC, LIST_PATTERN, LIST_REFERENCE, QRESYNC,
};

#[test]
fn formats_standard_sasl_authentication_responses() {
    assert_eq!(SaslResponse::plain("alice", "secret").0, b"\0alice\0secret");
    assert_eq!(
        SaslResponse::xoauth2("alice@example.org", "token").0,
        b"user=alice@example.org\x01auth=Bearer token\x01\x01"
    );
    assert_eq!(SaslResponse::oauth_bearer("alice@example.org", "token", "imap.example.org", 993).0, b"n,a=alice@example.org,\x01host=imap.example.org\x01port=993\x01auth=Bearer token\x01\x01");
}

#[test]
fn a_sasl_response_answers_every_challenge_alike() {
    let response = SaslResponse::plain("zoë", "p");
    assert_eq!(response.process(b""), "\0zoë\0p".as_bytes());
    assert_eq!(response.process(b"anything"), response.0);
}

fn plan(authentication: Authentication) -> ConnectPlan {
    MailReader::connect_with_auth("imap.example.org", 1993, "alice", "s3cret", authentication)
}

#[test]
fn plans_follow_the_mechanism_and_verify_certificates() {
    let login = plan(Authentication::Login);
    assert_eq!(login.host(), "imap.example.org");
    assert_eq!(login.port(), 1993);
    assert!(!login.skip_tls_verify());
    assert!(
        *login.login()
            == Login::Password {
                username: "alice".into(),
                password: "s3cret".into(),
            }
    );
    assert!(MailReader::connect("imap.example.org", 1993, "alice", "s3cret") == login);
    assert!(
        *plan(Authentication::Plain).login()
            == Login::Sasl {
                mechanism: "PLAIN".into(),
                response: SaslResponse(b"\0alice\0s3cret".to_vec()),
            }
    );
    assert!(
        *plan(Authentication::XOAuth2).login()
            == Login::Sasl {
                mechanism: "XOAUTH2".into(),
                response: SaslResponse(b"user=alice\x01auth=Bearer s3cret\x01\x01".to_vec()),
            }
    );
    let bearer = plan(Authentication::OAuthBearer);
    assert!(!bearer.skip_tls_verify());
    assert!(
        *bearer.login()
            == Login::Sasl {
                mechanism: "OAUTHBEARER".into(),
                response: SaslResponse(
                    b"n,a=alice,\x01host=imap.example.org\x01port=1993\x01auth=Bearer s3cret\x01\x01"
                        .to_vec()
                ),
            }
    );
}

fn reader() -> MailReader {
    plan(Authentication::Login).established()
}

fn item(uid: u32, mod_seq: Option<u64>) -> FetchItem {
    FetchItem {
        uid: Some(uid),
        body: Some(b"Subject: x\r\n\r\n".to_vec()),
        flags: vec![MessageFlag::Other, MessageFlag::Seen],
        mod_seq,
    }
}

#[test]
fn a_source_uri_names_account_mailbox_and_uid() {
    let message = FetchedMessage {
        uid: 4294967295,
        source: ImapSource {
            account: "alice@example.org".into(),
            mailbox: "Sent Mail".into(),
        },
        rfc822: Vec::new(),
        is_seen: false,
        mod_sequence: None,
    };
    assert_eq!(
        message.source_uri(),
        "imap://alice@example.org/Sent Mail;uid=4294967295"
    );
    assert_eq!(uid_uri("a", "b", 0), "imap://a/b;uid=0");
    assert!(uid_uri("a", "b", 10).starts_with(mailbox_uri("a", "b").as_str()));
    assert_ne!(uid_uri("a", "b", 1), uid_uri("a", "b", 10));
}

#[test]
fn listing_asks_for_every_mailbox() {
    let run = reader().list_mailboxes();
    assert_eq!(run.commands(), vec![Command::List]);
    assert_eq!(LIST_REFERENCE, "");
    assert_eq!(LIST_PATTERN, "*");
    let listed = vec![
        ListedMailbox { name: "INBOX".into() },
        ListedMailbox { name: "a/B".into() },
    ];
    assert_eq!(run.names(&listed), vec!["INBOX", "a/B"]);
}

fn select(mailbox: &str) -> Command {
    Command::Select {
        mailbox: mailbox.into(),
    }
}

fn fetch_of(commands: &[Command]) -> (String, String) {
    match commands.last() {
        Some(Command::UidFetch(request)) => {
            (request.uid_set().to_string(), request.query().to_string())
        }
        other => panic!("unexpected {other:?}"),
    }
}

#[test]
fn the_newest_uids_come_first() {
    let run = reader().recent_uids("INBOX", 3);
    let commands = run.commands();
    assert_eq!(commands.len(), 2);
    assert_eq!(commands[0], select("INBOX"));
    assert_eq!(
        fetch_of(&commands),
        ("1:*".to_string(), "(UID)".to_string())
    );

    assert_eq!(run.newest(&uid_items(&[5, 1, 9, 7, 2])), vec![9, 7, 5]);
    assert_eq!(run.newest(&uid_items(&[2, 3])), vec![3, 2]);
    assert_eq!(run.newest(&uid_items(&[2, 3, 2, 3, 3])), vec![3, 2]);
    assert_eq!(run.newest(&Vec::new()), Vec::<u32>::new());
    let mut items = uid_items(&[4, 6]);
    items[0].uid = None;
    assert_eq!(run.newest(&items), vec![6]);
    assert_eq!(
        reader().recent_uids("INBOX", 0).newest(&uid_items(&[1])),
        Vec::<u32>::new()
    );
}

fn uid_items(uids: &[u32]) -> Vec<FetchItem> {
    uids.iter()
        .map(|uid| FetchItem {
            uid: Some(*uid),
            body: None,
            flags: Vec::new(),
            mod_seq: None,
        })
        .collect()
}

#[test]
fn fetching_peeks_at_one_message() {
    let run = reader().fetch_message("INBOX", 42);
    let commands = run.commands();
    assert_eq!(commands.len(), 2);
    assert_eq!(commands[0], select("INBOX"));
    assert_eq!(
        fetch_of(&commands),
        (
            "42".to_string(),
            "(UID FLAGS MODSEQ RFC822.SIZE BODY.PEEK[])".to_string()
        )
    );

    let message = run.received(&vec![item(42, Some(3)), item(43, None)]).unwrap();
    assert_eq!(
        message,
        FetchedMessage {
            uid: 42,
            source: ImapSource {
                account: "alice".into(),
                mailbox: "INBOX".into(),
            },
            rfc822: b"Subject: x\r\n\r\n".to_vec(),
            is_seen: true,
            mod_sequence: Some(3),
        }
    );

    let missing = run.received(&Vec::new()).unwrap_err();
    assert_eq!(
        missing,
        ReadError::MessageNotFound {
            uid: 42,
            mailbox: "INBOX".into(),
        }
    );
    assert_eq!(missing.describe(), "UID 42 was not found in INBOX");
}

#[test]
fn a_message_needs_its_body() {
    let mut incomplete = item(7, None);
    incomplete.body = None;
    let error = fetched_message("alice", "INBOX", 7, &incomplete).unwrap_err();
    assert_eq!(error, ReadError::BodyMissing { uid: 7 });
    assert_eq!(
        error.describe(),
        "server did not return RFC 822 data for UID 7"
    );

    let mut unread = item(7, None);
    unread.flags = vec![MessageFlag::Other];
    assert!(!fetched_message("alice", "INBOX", 7, &unread).unwrap().is_seen);
}

const EARLIER: MailboxState = MailboxState {
    uid_validity: 4,
    highest_mod_sequence: Some(90),
};

fn answers() -> SyncAnswers {
    SyncAnswers {
        capabilities: Capabilities {
            qresync: true,
            enable: true,
        },
        enabled: true,
        selected: SelectedMailbox {
            uid_validity: Some(4),
            highest_mod_seq: Some(95),
        },
        items: vec![item(11, Some(97)), item(12, Some(93))],
        unsolicited: vec![
            Unsolicited::Other,
            Unsolicited::Vanished(vec![
                UidRange { start: 3, end: 5 },
                UidRange { start: 9, end: 9 },
                UidRange { start: 8, end: 7 },
            ]),
            Unsolicited::Vanished(vec![UidRange {
                start: 4294967295,
                end: 4294967295,
            }]),
        ],
    }
}

#[test]
fn a_delta_asks_for_changes_since_the_earlier_state() {
    assert_eq!((QRESYNC, ENABLE), ("QRESYNC", "ENABLE"));
    assert_eq!(ENABLE_QRESYNC, "ENABLE QRESYNC");
    let start = reader().sync_mailbox("INBOX", Some(EARLIER));
    assert_eq!(start.commands(), vec![Command::Capability]);
    let next = start.capabilities(Capabilities {
        qresync: true,
        enable: true,
    });
    assert!(next.enable_qresync);
    assert_eq!(next.commands(), vec![Command::EnableQresync, select("INBOX")]);
    let fetch = next
        .selected(
            true,
            SelectedMailbox {
                uid_validity: Some(4),
                highest_mod_seq: Some(95),
            },
        )
        .unwrap();
    assert_eq!(fetch.commands().len(), 1);
    assert_eq!(
        fetch_of(&fetch.commands()),
        (
            "1:*".to_string(),
            "(UID FLAGS MODSEQ BODY.PEEK[]) (CHANGEDSINCE 90 VANISHED)".to_string()
        )
    );
    let collect = fetch.fetched(&vec![item(11, Some(97))]).unwrap();
    assert!(collect.used_qresync);
    let sync = collect.finish(&vec![Unsolicited::Vanished(vec![UidRange {
        start: 1,
        end: 2,
    }])]);
    assert_eq!(sync.vanished, vec![1, 2]);
    assert_eq!(sync.changed.len(), 1);
}

#[test]
fn a_delta_reports_changed_and_vanished_messages() {
    let sync = reader()
        .sync_recorded("INBOX", Some(EARLIER), &answers())
        .unwrap();
    assert_eq!(
        sync.state,
        MailboxState {
            uid_validity: 4,
            highest_mod_sequence: Some(97),
        }
    );
    assert_eq!(sync.changed.len(), 2);
    assert_eq!(sync.changed[0].uid, 11);
    assert_eq!(sync.changed[1].mod_sequence, Some(93));
    assert_eq!(sync.vanished, vec![3, 4, 5, 9, 4294967295]);
    assert!(sync.used_qresync);
    assert!(!sync.full_refresh);
}

#[test]
fn a_refresh_is_full_unless_everything_allows_a_delta() {
    let full = |previous: Option<MailboxState>, answers: &SyncAnswers| {
        let sync = reader().sync_recorded("INBOX", previous, answers).unwrap();
        assert_eq!(sync.full_refresh, !sync.used_qresync);
        assert!(!sync.full_refresh || sync.vanished.is_empty());
        sync.full_refresh
    };
    assert!(!full(Some(EARLIER), &answers()));
    assert!(full(None, &answers()));
    assert!(full(
        Some(MailboxState {
            highest_mod_sequence: None,
            ..EARLIER
        }),
        &answers()
    ));
    assert!(full(
        Some(MailboxState {
            uid_validity: 5,
            ..EARLIER
        }),
        &answers()
    ));
    let mut lacking = answers();
    lacking.capabilities.qresync = false;
    assert!(full(Some(EARLIER), &lacking));
    let mut lacking = answers();
    lacking.capabilities.enable = false;
    assert!(full(Some(EARLIER), &lacking));
    let mut refused = answers();
    refused.enabled = false;
    assert!(full(Some(EARLIER), &refused));
}

#[test]
fn a_full_refresh_asks_for_the_whole_mailbox() {
    let next = reader()
        .sync_mailbox("INBOX", None)
        .capabilities(Capabilities {
            qresync: true,
            enable: true,
        });
    assert!(!next.enable_qresync);
    assert_eq!(next.commands(), vec![select("INBOX")]);
    let fetch = next
        .selected(
            false,
            SelectedMailbox {
                uid_validity: Some(1),
                highest_mod_seq: None,
            },
        )
        .unwrap();
    assert_eq!(fetch_of(&fetch.commands()).1, "(UID FLAGS MODSEQ BODY.PEEK[])");
    let sync = fetch
        .fetched(&vec![item(1, None)])
        .unwrap()
        .finish(&Vec::new());
    assert_eq!(sync.state.highest_mod_sequence, None);
}

#[test]
fn a_mailbox_without_uid_validity_cannot_be_synchronized() {
    let mut silent = answers();
    silent.selected.uid_validity = None;
    let error = reader()
        .sync_recorded("Drafts", Some(EARLIER), &silent)
        .unwrap_err();
    assert_eq!(
        error,
        ReadError::UidValidityMissing {
            mailbox: "Drafts".into()
        }
    );
    assert_eq!(error.describe(), "Drafts does not report UIDVALIDITY");
}

#[test]
fn the_first_incomplete_response_fails_a_synchronization() {
    let mut incomplete = answers();
    incomplete.items[1].uid = None;
    incomplete.items[1].body = None;
    let error = reader()
        .sync_recorded("INBOX", None, &incomplete)
        .unwrap_err();
    assert_eq!(error, ReadError::UidOmitted);
    assert_eq!(error.describe(), "server omitted UID in UID FETCH response");

    incomplete.items[0].body = None;
    assert_eq!(
        reader().sync_recorded("INBOX", None, &incomplete).unwrap_err(),
        ReadError::BodyMissing { uid: 11 }
    );
}

#[test]
fn the_state_of_one_synchronization_starts_the_next() {
    let first = reader().sync_recorded("INBOX", None, &answers()).unwrap();
    let fetch = reader()
        .sync_mailbox("INBOX", Some(first.state))
        .capabilities(answers().capabilities)
        .selected(true, answers().selected)
        .unwrap();
    assert_eq!(
        fetch_of(&fetch.commands()).1,
        "(UID FLAGS MODSEQ BODY.PEEK[]) (CHANGEDSINCE 97 VANISHED)"
    );
}
