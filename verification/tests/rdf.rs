use imap_safe_mail::headers::Headers;
use imap_safe_mail::imap::{FetchedMessage, ImapSource};
use imap_safe_mail::rdf::{
    addresses, delete_mailbox_update, delete_message_update, delete_uid_update, escape,
    insert_message_update, message_to_nquads, mid_iri, normalize_subject, percent_encode,
    write_address, write_parts, RdfOptions, MAIL, RDF_TYPE, SCHEMA, XSD_INTEGER,
};

#[test]
fn projection_uses_the_mbox_rdf_namespaces_and_named_graphs() {
    let message = FetchedMessage {
        uid: 9,
        source: ImapSource { account: "alice@example.org".into(), mailbox: "INBOX".into() },
        rfc822: b"Message-ID: <a@example.org>\r\nSubject: Re: Hello\r\nFrom: Alice <alice@example.org>\r\n\r\nBody".to_vec(),
        is_seen: false,
        mod_sequence: None,
    };
    let rdf = message_to_nquads(&message, &RdfOptions { graph: Some("urn:email:alice@example.org".into()), include_body: true, ..Default::default() });
    assert!(rdf.contains("<https://mail.described.at/Message>"));
    assert!(rdf.contains("<http://schema.org/CreativeWork>"));
    assert!(rdf.contains("<urn:email:alice@example.org> ."));
    assert!(rdf.contains("\"Hello\""));
    assert!(rdf.contains("\"Body\""));
}

fn message(raw: &[u8]) -> FetchedMessage {
    FetchedMessage {
        uid: 9,
        source: ImapSource {
            account: "alice@example.org".into(),
            mailbox: "In Box".into(),
        },
        rfc822: raw.to_vec(),
        is_seen: false,
        mod_sequence: None,
    }
}

fn options(graph: Option<&str>, include_body: bool) -> RdfOptions {
    RdfOptions {
        data_iri: "https://d.example/x//".into(),
        graph: graph.map(String::from),
        include_body,
    }
}

#[test]
fn the_vocabularies_are_fixed() {
    assert_eq!(MAIL, "https://mail.described.at/");
    assert_eq!(SCHEMA, "http://schema.org/");
    assert_eq!(RDF_TYPE, "http://www.w3.org/1999/02/22-rdf-syntax-ns#type");
    assert_eq!(XSD_INTEGER, "http://www.w3.org/2001/XMLSchema#integer");
    let options = RdfOptions::default();
    assert_eq!(options.data_iri, "https://example.org/data/");
    assert_eq!(options.graph, None);
    assert!(!options.include_body);
}

#[test]
fn literals_are_escaped() {
    assert_eq!(
        escape("a\\b\"c\nd\re\tf é"),
        "a\\\\b\\\"c\\nd\\re\\tf é"
    );
    assert_eq!(escape(""), "");
}

#[test]
fn iris_are_percent_encoded() {
    assert_eq!(percent_encode("AZaz09-._~"), "AZaz09-._~");
    assert_eq!(percent_encode("<a b@é/>"), "%3Ca%20b%40%C3%A9%2F%3E");
    assert_eq!(mid_iri("<a!$&'()*+,;=:@b>/%"), "mid:%3Ca!$&'()*+,;=:@b%3E%2F%25");
    assert_ne!(percent_encode("a%20"), percent_encode("a "));
}

#[test]
fn subjects_lose_their_reply_marks() {
    assert_eq!(normalize_subject(" Re: FWD:fw :  aW: Hello: re: x "), "Hello: re: x");
    assert_eq!(normalize_subject("Reply: x"), "Reply: x");
    assert_eq!(normalize_subject("re:"), "");
    assert_eq!(normalize_subject("\u{3000}no colon\u{00A0}"), "no colon");
    assert_eq!(
        normalize_subject(normalize_subject("Re: re: x").as_str()),
        "x"
    );
}

#[test]
fn addresses_are_found_in_lists() {
    assert_eq!(
        addresses("Alice <Alice@Example.org>, bob@example.org , nobody, <<c@d> >, \"x\" < e@f >>"),
        vec!["Alice@Example.org", "bob@example.org", "c@d>", "e@f"]
    );
    assert_eq!(addresses(""), Vec::<String>::new());
    assert_eq!(addresses("\"Doe, J\" <j@x>"), vec!["j@x"]);
}

#[test]
fn the_base_ends_in_one_slash() {
    assert_eq!(options(None, false).data_base(), "https://d.example/x/");
    assert_eq!(RdfOptions { data_iri: "".into(), ..options(None, false) }.data_base(), "/");
}

#[test]
fn a_message_without_headers_is_named_by_account_and_uid() {
    assert_eq!(
        message_to_nquads(&message(b"x"), &options(None, true)),
        "<https://d.example/x/msg/imap/alice%40example.org/9> <http://www.w3.org/1999/02/22-rdf-syntax-ns#type> <https://mail.described.at/Message> .\n\
         <https://d.example/x/msg/imap/alice%40example.org/9> <http://www.w3.org/1999/02/22-rdf-syntax-ns#type> <http://schema.org/CreativeWork> .\n\
         <https://d.example/x/msg/imap/alice%40example.org/9> <https://mail.described.at/folder> <https://d.example/x/folder/In%20Box> .\n\
         <https://d.example/x/folder/In%20Box> <http://www.w3.org/1999/02/22-rdf-syntax-ns#type> <https://mail.described.at/Mailbox> .\n\
         <https://d.example/x/msg/imap/alice%40example.org/9> <https://mail.described.at/sourcePath> \"imap://alice@example.org/In Box;uid=9\" .\n\
         <https://d.example/x/msg/imap/alice%40example.org/9> <https://mail.described.at/size> \"1\"^^<http://www.w3.org/2001/XMLSchema#integer> .\n"
    );
    // An empty identifier does not name a message, but is still reported.
    let rdf = message_to_nquads(&message(b"Message-ID:\r\n\r\n"), &options(None, false));
    assert!(rdf.contains("<https://d.example/x/msg/imap/alice%40example.org/9> <https://mail.described.at/messageId> \"\" .\n"));
    assert!(rdf.contains("<https://mail.described.at/mid> <mid:> .\n"));
}

const FULL: &[u8] = b"Message-ID: <1@x>\r\nSubject: Re: \"Hi\"\r\nFrom: A <A@X.Org>\r\nTo: b@y, c\r\nCc: d@z\r\nBcc: e@w\r\nReply-To: f@v\r\nX-Mailer: m\r\n\r\nline\n";

#[test]
fn a_full_message_is_projected_line_by_line() {
    let m = "<https://d.example/x/msg/%3C1%40x%3E>";
    let kind = "<http://www.w3.org/1999/02/22-rdf-syntax-ns#type>";
    let mail = "https://mail.described.at/";
    let graph = "<urn:g> .";
    let mut expected: Vec<String> = vec![
        format!("{m} {kind} <{mail}Message> {graph}"),
        format!("{m} {kind} <http://schema.org/CreativeWork> {graph}"),
        format!("{m} <{mail}folder> <https://d.example/x/folder/In%20Box> {graph}"),
        format!("<https://d.example/x/folder/In%20Box> {kind} <{mail}Mailbox> {graph}"),
        format!("{m} <{mail}sourcePath> \"imap://alice@example.org/In Box;uid=9\" {graph}"),
        format!("{m} <{mail}size> \"{}\"^^<http://www.w3.org/2001/XMLSchema#integer> {graph}", FULL.len()),
        format!("{m} <{mail}messageId> \"<1@x>\" {graph}"),
        format!("{m} <{mail}mid> <mid:%3C1@x%3E> {graph}"),
        format!("{m} <{mail}subject> \"Re: \\\"Hi\\\"\" {graph}"),
        format!("{m} <{mail}normalizedSubject> \"\\\"Hi\\\"\" {graph}"),
    ];
    for (predicate, account, address, domain) in [
        ("from", "a%40x.org", "A@X.Org", "x.org"),
        ("to", "b%40y", "b@y", "y"),
        ("cc", "d%40z", "d@z", "z"),
        ("bcc", "e%40w", "e@w", "w"),
        ("replyTo", "f%40v", "f@v", "v"),
    ] {
        expected.push(format!("{m} <{mail}{predicate}> <mailto:{account}> {graph}"));
        expected.push(format!("<mailto:{account}> {kind} <{mail}Account> {graph}"));
        expected.push(format!("<mailto:{account}> <http://schema.org/email> \"{address}\" {graph}"));
        expected.push(format!("<mailto:{account}> <{mail}domain> \"{domain}\" {graph}"));
    }
    expected.push(format!("{m} <{mail}userAgent> \"m\" {graph}"));
    expected.push(format!("{m} <{mail}bodyText> \"line\\n\" {graph}"));

    let rdf = message_to_nquads(&message(FULL), &options(Some("urn:g"), true));
    let lines: Vec<&str> = rdf.lines().collect();
    assert_eq!(lines, expected);
    assert!(rdf.ends_with(" .\n"));

    let without = message_to_nquads(&message(FULL), &options(Some("urn:g"), false));
    expected.pop();
    assert_eq!(without.lines().collect::<Vec<&str>>(), expected);
}

#[test]
fn the_user_agent_counts_before_the_mailer() {
    let raw = b"X-Mailer: m\r\nUser-Agent: u\r\n\r\n";
    let rdf = message_to_nquads(&message(raw), &options(None, false));
    assert!(rdf.contains("userAgent> \"u\" ."));
    assert!(!rdf.contains("\"m\""));
}

#[test]
fn addresses_are_lowered_beyond_ascii() {
    let raw = "From: <JÖRG@MÜLLER.Example>\r\n\r\n".as_bytes();
    let rdf = message_to_nquads(&message(raw), &options(None, false));
    assert!(rdf.contains("<mailto:j%C3%B6rg%40m%C3%BCller.example> <https://mail.described.at/domain> \"müller.example\" ."));
    assert!(rdf.contains("<http://schema.org/email> \"JÖRG@MÜLLER.Example\" ."));
}

#[test]
fn a_message_cannot_break_a_line() {
    let raw = "Message-ID: a\n\tb> .\r\nSubject: x\r\n \" .\r\n\r\n\" .\n<s> <p> <o> .\n".as_bytes();
    let rdf = message_to_nquads(&message(raw), &options(None, true));
    for line in rdf.lines() {
        assert!(line.starts_with("<https://d.example/x/"));
        assert!(line.ends_with(" ."));
    }
    assert!(rdf.contains("bodyText> \"\\\" .\\n<s> <p> <o> .\\n\" ."));
}

#[test]
fn parts_and_addresses_are_written_as_given() {
    let parts = Headers::of_section("Subject: s", b"");
    let graph: Option<String> = None;
    let rdf = write_parts(&message(b"ab"), &parts, &options(Some("urn:unused"), true), &graph);
    assert!(rdf.contains("size> \"2\"^^"));
    assert!(rdf.contains("subject> \"s\" .\n"));
    assert!(!rdf.contains("urn:unused"));

    let mut out = String::from("# start\n");
    write_address(&mut out, "urn:m", "from", "A@B", "lower", None, &Some("urn:g".to_string()));
    assert_eq!(
        out,
        "# start\n\
         <urn:m> <https://mail.described.at/from> <mailto:lower> <urn:g> .\n\
         <mailto:lower> <http://www.w3.org/1999/02/22-rdf-syntax-ns#type> <https://mail.described.at/Account> <urn:g> .\n\
         <mailto:lower> <http://schema.org/email> \"A@B\" <urn:g> .\n"
    );
}

#[test]
fn updates_delete_by_source_and_insert_triples() {
    let by_uid = delete_uid_update("alice@example.org", "In Box", 9, "urn:g");
    assert_eq!(
        by_uid,
        "DELETE { GRAPH <urn:g> { ?message ?predicate ?object } } WHERE { GRAPH <urn:g> { ?message <https://mail.described.at/sourcePath> \"imap://alice@example.org/In Box;uid=9\" ; ?predicate ?object } } ;\n"
    );
    assert_eq!(delete_message_update(&message(b"x"), "urn:g"), by_uid);
    assert_eq!(
        delete_mailbox_update("a", "b\"", "urn:g"),
        "DELETE { GRAPH <urn:g> { ?message ?predicate ?object } } WHERE { GRAPH <urn:g> { ?message <https://mail.described.at/sourcePath> ?source ; ?predicate ?object FILTER(STRSTARTS(STR(?source), \"imap://a/b\\\";uid=\")) } } ;\n"
    );
    let triples = message_to_nquads(&message(b"x"), &options(None, false));
    assert_eq!(
        insert_message_update(&message(b"x"), "urn:g", &options(Some("urn:other"), false)),
        format!("INSERT DATA {{ GRAPH <urn:g> {{\n{triples}}} }} ;\n")
    );
}

#[test]
fn bodies_stay_out_unless_asked_for() {
    let a = message(b"Message-ID: 1\r\n\r\nabc");
    let b = message(b"Message-ID: 1\r\n\r\nxyz");
    assert_eq!(
        message_to_nquads(&a, &options(None, false)),
        message_to_nquads(&b, &options(None, false))
    );
    assert_ne!(
        message_to_nquads(&a, &options(None, true)),
        message_to_nquads(&b, &options(None, true))
    );
}

#[test]
fn different_identifiers_name_different_messages() {
    let a = message_to_nquads(&message(b"Message-ID: a b\r\n\r\n"), &options(None, false));
    let b = message_to_nquads(&message(b"Message-ID: a%20b\r\n\r\n"), &options(None, false));
    assert!(a.starts_with("<https://d.example/x/msg/a%20b> "));
    assert!(b.starts_with("<https://d.example/x/msg/a%2520b> "));
}

#[test]
fn quads_are_triples_with_the_graph_put_in() {
    let triples = message_to_nquads(&message(FULL), &options(None, true));
    let quads = message_to_nquads(&message(FULL), &options(Some("urn:g"), true));
    let expected: Vec<String> = triples
        .lines()
        .map(|line| format!("{}<urn:g> .", line.strip_suffix('.').unwrap()))
        .collect();
    assert_eq!(quads.lines().collect::<Vec<&str>>(), expected);
}

#[test]
fn texts_can_be_written_piece_by_piece() {
    let (a, b) = ("é\"/", "\t<ß>");
    let whole = format!("{a}{b}");
    assert_eq!(escape(&whole), format!("{}{}", escape(a), escape(b)));
    assert_eq!(
        percent_encode(&whole),
        format!("{}{}", percent_encode(a), percent_encode(b))
    );
    let subject = "  fwd : RE:\u{a0}x re: y ";
    assert!(subject.trim().ends_with(normalize_subject(subject).as_str()));
    assert_eq!(normalize_subject(subject), "x re: y");
}
