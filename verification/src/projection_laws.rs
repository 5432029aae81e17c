//! What the RDF projection says of a message, and what its parts are for.

use vstd::prelude::*;
use vstd::utf8;

use crate::foundation;
use crate::headers;
use crate::imap;
use crate::rdf;
use crate::rdf::{Object, SafeSet, Statement};
use crate::rdf_laws;
use crate::text;
use crate::text_laws;

verus! {

// ---------------------------------------------------------------------------
// Escaping and encoding

/// Five characters are escaped, each by a backslash and one character. Every
/// other character stands for itself.
pub proof fn five_characters_are_escaped(c: char)
    ensures
        rdf::escaped(seq![c]) == if c == '\\' || c == '"' {
            seq!['\\', c]
        } else if c == '\n' {
            seq!['\\', 'n']
        } else if c == '\r' {
            seq!['\\', 'r']
        } else if c == '\t' {
            seq!['\\', 't']
        } else {
            seq![c]
        },
{
    reveal_with_fuel(rdf::escaped, 2);
    assert(seq![c].drop_last() =~= Seq::<char>::empty());
    assert(rdf::escaped(seq![c]) =~= rdf::escaped_char(c));
}

/// A byte stands for itself in an IRI exactly if it is an ASCII letter or digit
/// or one of a few marks, of which a message identifier has more. Any other byte
/// becomes a percent sign and its two hexadecimal digits in upper case.
pub proof fn bytes_are_encoded(b: u8, safe: SafeSet)
    ensures
        ({
            let c = b as char;
            let plain = {
                ||| 'A' <= c <= 'Z'
                ||| 'a' <= c <= 'z'
                ||| '0' <= c <= '9'
                ||| "-._~"@.contains(c)
                ||| safe is MessageId && "!$&'()*+,;=:@"@.contains(c)
            };
            rdf::encoded_bytes(seq![b], safe) == if plain {
                seq![c]
            } else {
                seq![
                    '%',
                    "0123456789ABCDEF"@[(b / 16) as int],
                    "0123456789ABCDEF"@[(b % 16) as int],
                ]
            }
        }),
{
    reveal_strlit("-._~");
    reveal_strlit("!$&'()*+,;=:@");
    reveal_strlit("0123456789ABCDEF");
    reveal_with_fuel(rdf::encoded_bytes, 2);
    assert(seq![b].drop_last() =~= Seq::<u8>::empty());
    assert(rdf::encoded_bytes(seq![b], safe) =~= rdf::encoded_byte(b, safe));
    let c = b as char;
    let few = "-._~"@;
    let more = "!$&'()*+,;=:@"@;
    assert(few[0] == '-' && few[1] == '.' && few[2] == '_' && few[3] == '~');
    assert(more[0] == '!' && more[1] == '$' && more[2] == '&' && more[3] == '\'');
    assert(more[4] == '(' && more[5] == ')' && more[6] == '*' && more[7] == '+');
    assert(more[8] == ',' && more[9] == ';' && more[10] == '=' && more[11] == ':');
    assert(more[12] == '@');
    assert(few.contains(c) <==> c == '-' || c == '.' || c == '_' || c == '~');
    assert(more.contains(c) <==> c == '!' || c == '$' || c == '&' || c == '\'' || c == '(' || c
        == ')' || c == '*' || c == '+' || c == ',' || c == ';' || c == '=' || c == ':' || c == '@');
    let hex = "0123456789ABCDEF"@;
    assert(forall|n: u8| n < 16 ==> #[trigger] rdf::hex_digit(n) == hex[n as int]);
}

/// A text is encoded by its UTF-8 bytes, and a `mid:` IRI is the scheme and the
/// encoded identifier.
pub proof fn texts_are_encoded_by_bytes(s: Seq<char>, safe: SafeSet)
    ensures
        rdf::encoded(s, safe) == rdf::encoded_bytes(utf8::encode_utf8(s), safe),
        rdf::encoded_bytes(Seq::<u8>::empty(), safe).len() == 0,
        rdf::mid(s) == "mid:"@ + rdf::encoded(s, SafeSet::MessageId),
        rdf::escaped(Seq::<char>::empty()).len() == 0,
{
}

// ---------------------------------------------------------------------------
// Subjects

/// Whether a word is a reply mark, in any case and with white space around it.
pub open spec fn marks_a_reply(word: Seq<char>) -> bool {
    let lower = text::ascii_lowercase(text::trimmed(word));
    ||| lower == "re"@
    ||| lower == "fwd"@
    ||| lower == "fw"@
    ||| lower == "aw"@
}

/// A reply mark before a subject makes no difference to the normalized subject.
pub proof fn reply_mark_makes_no_difference(word: Seq<char>, subject: Seq<char>)
    requires
        !word.contains(':'),
        marks_a_reply(word),
    ensures
        rdf::normalized(word.push(':') + subject) == rdf::normalized(subject),
{
    let start = text::trim_start(word);
    let end = text::trim_end(subject);
    text_laws::trim_start_stops_at(word, ':', subject);
    text_laws::trim_end_stops_at(start, ':', subject);
    text_laws::trimming_ends_first(word);
    text_laws::trimming_ends_first(subject);
    text::trim_start_is_suffix(word);
    assert(!start.contains(':')) by {
        if start.contains(':') {
            let i = start.index_of(':');
            assert(word[word.len() - start.len() + i] == ':');
        }
    }
    text_laws::splitting_undoes_joining(start, ':', end);
    let whole = text::trimmed(word.push(':') + subject);
    assert(whole == start.push(':') + end);
    assert(rdf::is_reply_mark(start));
    assert(rdf::without_reply_marks(whole) == rdf::without_reply_marks(text::trimmed(end)));
}

/// A subject that does not begin with a reply mark is only trimmed.
pub proof fn other_subjects_are_only_trimmed(subject: Seq<char>)
    requires
        text::split_once(text::trimmed(subject), ':') matches Some((word, _)) ==> !marks_a_reply(
            word,
        ),
    ensures
        rdf::normalized(subject) == text::trimmed(subject),
{
}

// ---------------------------------------------------------------------------
// Addresses

proof fn addresses_follow_one_another(a: Seq<Seq<char>>, b: Seq<Seq<char>>)
    ensures
        rdf::addresses_in(a + b) == rdf::addresses_in(a) + rdf::addresses_in(b),
    decreases b.len(),
{
    if b.len() == 0 {
        assert(a + b =~= a);
        assert(rdf::addresses_in(a + b) =~= rdf::addresses_in(a) + rdf::addresses_in(b));
    } else {
        addresses_follow_one_another(a, b.drop_last());
        assert((a + b).drop_last() =~= a + b.drop_last());
        assert(rdf::addresses_in(a + b) =~= rdf::addresses_in(a) + rdf::addresses_in(b));
    }
}

/// The addresses of a list are those of its parts, in their order. A part gives
/// its address if that holds an `@`, and otherwise none.
pub proof fn every_part_gives_its_address(part: Seq<char>, rest: Seq<char>)
    requires
        !part.contains(','),
    ensures
        rdf::address_list(part.push(',') + rest) == rdf::address_list(part) + rdf::address_list(
            rest,
        ),
        rdf::address_list(part) == if rdf::address_in(part).contains('@') {
            seq![rdf::address_in(part)]
        } else {
            seq![]
        },
{
    text_laws::pieces_of_joined(part, ',', rest);
    addresses_follow_one_another(seq![part], text::split_at_each(rest, ','));
    reveal_with_fuel(rdf::addresses_in, 2);
    assert(seq![part].drop_last() =~= Seq::<Seq<char>>::empty());
    assert(seq![part].last() == part);
}

/// The address of a part is what stands behind its last `<`, up to the closing
/// brackets at the end, or the whole part if it has no `<`; in either case
/// without white space around it.
pub proof fn address_stands_in_brackets(name: Seq<char>, inner: Seq<char>)
    requires
        !inner.contains('<'),
    ensures
        rdf::address_in(inner) == text::trimmed(inner),
        rdf::address_in(name.push('<') + inner) == text::trimmed(
            text::trim_end_of(text::trim_end(inner), '>'),
        ),
{
    let start = text::trim_start(name);
    let end = text::trim_end(inner);
    text_laws::trim_start_stops_at(name, '<', inner);
    text_laws::trim_end_stops_at(start, '<', inner);
    text::trim_end_is_prefix(inner);
    assert(!end.contains('<')) by {
        if end.contains('<') {
            assert(inner[end.index_of('<')] == '<');
        }
    }
    text_laws::splitting_last_undoes_joining(start, '<', end);
    let (b, e) = text_laws::trimming_removes_white_space_alone(inner);
    let t = text::trimmed(inner);
    assert(!t.contains('<')) by {
        if t.contains('<') {
            assert(inner[b + t.index_of('<')] == '<');
        }
    }
    text_laws::splitting_last_undoes_joining(name, '<', t);
}

/// An address in brackets behind a name is found as it is.
pub proof fn bracketed_address_is_found(name: Seq<char>, address: Seq<char>)
    requires
        !address.contains('<'),
        address.len() > 0,
        address.last() != '>',
        !text::is_white_space(address[0]),
        !text::is_white_space(address.last()),
    ensures
        rdf::address_in(name.push('<') + address.push('>')) == address,
{
    let inner = address.push('>');
    assert(!inner.contains('<')) by {
        if inner.contains('<') {
            let i = inner.index_of('<');
            assert(address[i] == '<');
        }
    }
    address_stands_in_brackets(name, inner);
    assert(inner.last() == '>');
    assert(text::trim_end(inner) == inner);
    let one = text_laws::repeated('>', 1);
    text_laws::run_at_end_is_removed(address, '>', 1);
    assert(inner =~= address + one);
    let empty = Seq::<char>::empty();
    text_laws::trimming_uncovers_text(empty, address, empty);
    assert(empty + address + empty =~= address);
}

/// The domain of an address is what stands behind its last `@`, in lower case.
pub proof fn domain_stands_behind_the_last_at(local: Seq<char>, domain: Seq<char>)
    requires
        !domain.contains('@'),
    ensures
        rdf::domain_of(local.push('@') + domain) == Some(foundation::lowercase(domain)),
        rdf::domain_of(domain) is None,
{
    text_laws::splitting_last_undoes_joining(local, '@', domain);
}

// ---------------------------------------------------------------------------
// Statements as they are written

/// A link names its three IRIs, and a note its subject, its predicate and its
/// text. Terms of the two vocabularies begin with their namespaces.
pub proof fn statements_hold_their_parts(s: Seq<char>, p: Seq<char>, o: Seq<char>)
    ensures
        rdf::link(s, p, o) == (Statement { subject: s, predicate: p, object: Object::Iri(o) }),
        rdf::note(s, p, o) == (Statement {
            subject: s,
            predicate: p,
            object: Object::Literal { value: o, datatype: None },
        }),
        rdf::mail(p) == "https://mail.described.at/"@ + p,
        rdf::schema(p) == "http://schema.org/"@ + p,
        rdf::account_iri(o) == "mailto:"@ + rdf::encoded(o, SafeSet::Unreserved),
        rdf::quoted(o) == "\""@ + rdf::escaped(o) + "\""@,
{
}

/// A statement is written as its subject and its predicate in angle brackets, its
/// object, the graph in angle brackets if there is one, and a full stop. An IRI
/// stands in angle brackets; a literal stands in quotes, escaped, and is followed
/// by its datatype if it has one.
pub proof fn statements_are_written_out(
    s: Seq<char>,
    p: Seq<char>,
    o: Seq<char>,
    kind: Seq<char>,
    graph: Seq<char>,
)
    ensures
        ({
            let head = "<"@ + s + "> <"@ + p + "> "@;
            let iri = Statement { subject: s, predicate: p, object: Object::Iri(o) };
            let plain = Statement {
                subject: s,
                predicate: p,
                object: Object::Literal { value: o, datatype: None },
            };
            let typed = Statement {
                subject: s,
                predicate: p,
                object: Object::Literal { value: o, datatype: Some(kind) },
            };
            let literal = "\""@ + rdf::escaped(o) + "\""@;
            &&& rdf::statement_text(iri, None) == head + ("<"@ + o + ">"@) + " ."@
            &&& rdf::statement_text(plain, None) == head + literal + " ."@
            &&& rdf::statement_text(typed, None) == head + (literal + "^^<"@ + kind + ">"@) + " ."@
            &&& rdf::statement_text(iri, Some(graph)) == head + ("<"@ + o + ">"@) + " <"@ + graph
                + "> ."@
            &&& rdf::statement_text(plain, Some(graph)) == head + literal + " <"@ + graph + "> ."@
            &&& rdf::statement_text(typed, Some(graph)) == head + (literal + "^^<"@ + kind + ">"@)
                + " <"@ + graph + "> ."@
        }),
{
}

// ---------------------------------------------------------------------------
// IRIs

/// However many slashes the data IRI ends with, the base ends with one.
pub proof fn base_is_the_data_iri_and_a_slash(data_iri: Seq<char>, n: nat)
    requires
        data_iri.len() == 0 || data_iri.last() != '/',
    ensures
        rdf::base_iri(data_iri + text_laws::repeated('/', n)) == data_iri.push('/'),
{
    reveal_strlit("/");
    text_laws::run_at_end_is_removed(data_iri, '/', n);
    assert(data_iri + "/"@ =~= data_iri.push('/'));
}

/// A message is named by its whole identifier, encoded, if that is not empty, and
/// otherwise by the whole account, encoded, and the UID. A mailbox is named by
/// its whole name, encoded.
pub proof fn messages_and_mailboxes_are_named(
    base: Seq<char>,
    id: Seq<char>,
    message: imap::MessageModel,
)
    ensures
        id.len() > 0 ==> rdf::message_iri(base, Some(id), message) == base + "msg/"@ + rdf::encoded(
            id,
            SafeSet::Unreserved,
        ),
        ({
            let by_uid = base + "msg/imap/"@ + rdf::encoded(message.account, SafeSet::Unreserved)
                + "/"@ + text::decimal(message.uid as nat);
            &&& rdf::message_iri(base, None, message) == by_uid
            &&& rdf::message_iri(base, Some(Seq::empty()), message) == by_uid
        }),
        rdf::folder_iri(base, message.mailbox) == base + "folder/"@ + rdf::encoded(
            message.mailbox,
            SafeSet::Unreserved,
        ),
{
}

// ---------------------------------------------------------------------------
// The projection

/// Every address of a list is stated in full: the message is linked to its
/// account, which is typed and has the address and its domain. The statements
/// come in the order of the addresses, four for each.
pub proof fn every_address_is_stated(
    iri: Seq<char>,
    predicate: Seq<char>,
    addresses: Seq<Seq<char>>,
)
    requires
        forall|i: int| 0 <= i < addresses.len() ==> rdf::domain_of(#[trigger] addresses[i]) is Some,
    ensures
        ({
            let all = rdf::all_address_statements(iri, predicate, addresses);
            &&& all.len() == 4 * addresses.len()
            &&& forall|i: int|
                0 <= i < addresses.len() ==> {
                    let address = #[trigger] addresses[i];
                    let account = rdf::account_iri(foundation::lowercase(address));
                    &&& all[4 * i] == rdf::link(iri, rdf::mail(predicate), account)
                    &&& all[4 * i + 1] == rdf::link(
                        account,
                        "http://www.w3.org/1999/02/22-rdf-syntax-ns#type"@,
                        rdf::mail("Account"@),
                    )
                    &&& all[4 * i + 2] == rdf::note(account, rdf::schema("email"@), address)
                    &&& all[4 * i + 3] == rdf::note(
                        account,
                        rdf::mail("domain"@),
                        rdf::domain_of(address)->0,
                    )
                }
        }),
    decreases addresses.len(),
{
    if addresses.len() > 0 {
        let before = addresses.drop_last();
        let last = addresses.last();
        assert forall|i: int| 0 <= i < before.len() implies rdf::domain_of(
            #[trigger] before[i],
        ) is Some by {
            assert(before[i] == addresses[i]);
        }
        every_address_is_stated(iri, predicate, before);
        let all = rdf::all_address_statements(iri, predicate, addresses);
        let earlier = rdf::all_address_statements(iri, predicate, before);
        assert(addresses[addresses.len() - 1] == last);
        let own = rdf::address_statements(
            iri,
            predicate,
            last,
            foundation::lowercase(last),
            rdf::domain_of(last),
        );
        assert(all == earlier + own);
        assert forall|i: int| 0 <= i < addresses.len() implies {
            let address = #[trigger] addresses[i];
            let account = rdf::account_iri(foundation::lowercase(address));
            &&& all[4 * i] == rdf::link(iri, rdf::mail(predicate), account)
            &&& all[4 * i + 1] == rdf::link(
                account,
                "http://www.w3.org/1999/02/22-rdf-syntax-ns#type"@,
                rdf::mail("Account"@),
            )
            &&& all[4 * i + 2] == rdf::note(account, rdf::schema("email"@), address)
            &&& all[4 * i + 3] == rdf::note(
                account,
                rdf::mail("domain"@),
                rdf::domain_of(address)->0,
            )
        } by {
            if i < before.len() {
                assert(before[i] == addresses[i]);
                assert(all[4 * i] == earlier[4 * i]);
                assert(all[4 * i + 1] == earlier[4 * i + 1]);
                assert(all[4 * i + 2] == earlier[4 * i + 2]);
                assert(all[4 * i + 3] == earlier[4 * i + 3]);
            } else {
                assert(all[4 * i] == own[0]);
                assert(all[4 * i + 1] == own[1]);
                assert(all[4 * i + 2] == own[2]);
                assert(all[4 * i + 3] == own[3]);
            }
        }
    }
}

/// Whether a statement is one of the four that state an address of a header.
pub open spec fn states_an_address(
    st: Statement,
    iri: Seq<char>,
    predicate: Seq<char>,
    value: Option<Seq<char>>,
) -> bool {
    value is Some && exists|i: int|
        0 <= i < rdf::address_list(value->0).len() && states_address(
            st,
            iri,
            predicate,
            #[trigger] rdf::address_list(value->0)[i],
        )
}

/// Whether a statement is one of the four that state an address.
pub open spec fn states_address(
    st: Statement,
    iri: Seq<char>,
    predicate: Seq<char>,
    address: Seq<char>,
) -> bool {
    let account = rdf::account_iri(foundation::lowercase(address));
    ||| st == rdf::link(iri, rdf::mail(predicate), account)
    ||| st == rdf::link(
        account,
        "http://www.w3.org/1999/02/22-rdf-syntax-ns#type"@,
        rdf::mail("Account"@),
    )
    ||| st == rdf::note(account, rdf::schema("email"@), address)
    ||| st == rdf::note(account, rdf::mail("domain"@), rdf::domain_of(address)->0)
}

/// An address header is stated by the statements of its addresses, all of them
/// and nothing else.
pub proof fn people_are_all_stated(
    iri: Seq<char>,
    predicate: Seq<char>,
    value: Option<Seq<char>>,
    st: Statement,
)
    ensures
        rdf::people_statements(iri, predicate, value).contains(st) <==> states_an_address(
            st,
            iri,
            predicate,
            value,
        ),
        rdf::people_statements(iri, predicate, value).len() == match value {
            Some(v) => 4 * rdf::address_list(v).len(),
            None => 0,
        },
{
    if let Some(v) = value {
        let list = rdf::address_list(v);
        let all = rdf::people_statements(iri, predicate, value);
        rdf_laws::every_address_has_a_domain(v);
        every_address_is_stated(iri, predicate, list);
        if states_an_address(st, iri, predicate, value) {
            let i = choose|i: int|
                0 <= i < list.len() && states_address(st, iri, predicate, #[trigger] list[i]);
            let address = list[i];
            assert(all[4 * i] == all[4 * i]);
            assert(st == all[4 * i] || st == all[4 * i + 1] || st == all[4 * i + 2] || st == all[4
                * i + 3]);
        }
        if all.contains(st) {
            let k = all.index_of(st);
            let i = k / 4;
            assert(4 * i <= k < 4 * i + 4);
            assert(0 <= i < list.len());
            let address = list[i];
            assert(k == 4 * i || k == 4 * i + 1 || k == 4 * i + 2 || k == 4 * i + 3);
            assert(states_address(st, iri, predicate, address));
        }
    }
}

/// Whether a statement is to be made of a message: that it is a message and a
/// creative work; its folder, and that this is a mailbox; its source and its size;
/// its identifier and its subject, each in two forms; every address in its five
/// address headers; its user agent; and, if asked for, its body.
pub open spec fn is_to_be_said(
    st: Statement,
    message: imap::MessageModel,
    parts: headers::HeadersModel,
    base: Seq<char>,
    include_body: bool,
) -> bool {
    let of = |name: Seq<char>| headers::lookup(parts.entries, name);
    let rdf_type = "http://www.w3.org/1999/02/22-rdf-syntax-ns#type"@;
    let iri = rdf::message_iri(base, of("message-id"@), message);
    let folder = rdf::folder_iri(base, message.mailbox);
    ||| st == rdf::link(iri, rdf_type, rdf::mail("Message"@))
    ||| st == rdf::link(iri, rdf_type, rdf::schema("CreativeWork"@))
    ||| st == rdf::link(iri, rdf::mail("folder"@), folder)
    ||| st == rdf::link(folder, rdf_type, rdf::mail("Mailbox"@))
    ||| st == rdf::note(
        iri,
        rdf::mail("sourcePath"@),
        imap::message_uri(message.account, message.mailbox, message.uid),
    )
    ||| st == (Statement {
        subject: iri,
        predicate: rdf::mail("size"@),
        object: Object::Literal {
            value: text::decimal(message.rfc822.len()),
            datatype: Some("http://www.w3.org/2001/XMLSchema#integer"@),
        },
    })
    ||| of("message-id"@) matches Some(id) && (st == rdf::note(iri, rdf::mail("messageId"@), id)
        || st == rdf::link(iri, rdf::mail("mid"@), rdf::mid(id)))
    ||| of("subject"@) matches Some(subject) && (st == rdf::note(
        iri,
        rdf::mail("subject"@),
        subject,
    ) || st == rdf::note(iri, rdf::mail("normalizedSubject"@), rdf::normalized(subject)))
    ||| states_an_address(st, iri, "from"@, of("from"@))
    ||| states_an_address(st, iri, "to"@, of("to"@))
    ||| states_an_address(st, iri, "cc"@, of("cc"@))
    ||| states_an_address(st, iri, "bcc"@, of("bcc"@))
    ||| states_an_address(st, iri, "replyTo"@, of("reply-to"@))
    ||| of("user-agent"@) matches Some(agent) && st == rdf::note(
        iri,
        rdf::mail("userAgent"@),
        agent,
    )
    ||| of("user-agent"@) is None && (of("x-mailer"@) matches Some(agent) && st == rdf::note(
        iri,
        rdf::mail("userAgent"@),
        agent,
    ))
    ||| include_body && (headers::text_of_body(parts.body) matches Some(body) && st == rdf::note(
        iri,
        rdf::mail("bodyText"@),
        body,
    ))
}

/// The number of addresses in a header.
pub open spec fn address_count(value: Option<Seq<char>>) -> nat {
    match value {
        Some(v) => rdf::address_list(v).len(),
        None => 0,
    }
}

/// One for what is there, and none for what is not.
pub open spec fn count(value: Option<Seq<char>>) -> nat {
    if value is Some {
        1
    } else {
        0
    }
}

proof fn either_holds(a: Seq<Statement>, b: Seq<Statement>, st: Statement)
    ensures
        (a + b).contains(st) <==> a.contains(st) || b.contains(st),
{
    if a.contains(st) {
        assert((a + b)[a.index_of(st)] == st);
    }
    if b.contains(st) {
        assert((a + b)[a.len() + b.index_of(st)] == st);
    }
    if (a + b).contains(st) {
        let i = (a + b).index_of(st);
        if i < a.len() {
            assert(a[i] == st);
        } else {
            assert(b[i - a.len()] == st);
        }
    }
}

/// The projection makes exactly the statements that are to be made, none of them
/// more often than its source calls for.
pub proof fn projection_says_what_is_to_be_said(
    message: imap::MessageModel,
    parts: headers::HeadersModel,
    base: Seq<char>,
    include_body: bool,
    st: Statement,
)
    ensures
        rdf::projection(message, parts, base, include_body).contains(st) <==> is_to_be_said(
            st,
            message,
            parts,
            base,
            include_body,
        ),
        rdf::projection(message, parts, base, include_body).len() == 6 + 2 * count(
            headers::lookup(parts.entries, "message-id"@),
        ) + 2 * count(headers::lookup(parts.entries, "subject"@)) + 4 * address_count(
            headers::lookup(parts.entries, "from"@),
        ) + 4 * address_count(headers::lookup(parts.entries, "to"@)) + 4 * address_count(
            headers::lookup(parts.entries, "cc"@),
        ) + 4 * address_count(headers::lookup(parts.entries, "bcc"@)) + 4 * address_count(
            headers::lookup(parts.entries, "reply-to"@),
        ) + (if headers::lookup(parts.entries, "user-agent"@) is Some || headers::lookup(
            parts.entries,
            "x-mailer"@,
        ) is Some {
            1nat
        } else {
            0nat
        }) + (if include_body {
            count(headers::text_of_body(parts.body))
        } else {
            0nat
        }),
{
    let e = parts.entries;
    let id = headers::lookup(e, "message-id"@);
    let subject = headers::lookup(e, "subject"@);
    let iri = rdf::message_iri(base, id, message);
    let folder = rdf::folder_iri(base, message.mailbox);
    let agent = match headers::lookup(e, "user-agent"@) {
        Some(agent) => Some(agent),
        None => headers::lookup(e, "x-mailer"@),
    };
    let body = if include_body {
        headers::text_of_body(parts.body)
    } else {
        None
    };
    let p1 = rdf::base_statements(iri, folder, message);
    let p2 = rdf::id_statements(iri, id);
    let p3 = rdf::subject_statements(iri, subject);
    let p4 = rdf::people_statements(iri, "from"@, headers::lookup(e, "from"@));
    let p5 = rdf::people_statements(iri, "to"@, headers::lookup(e, "to"@));
    let p6 = rdf::people_statements(iri, "cc"@, headers::lookup(e, "cc"@));
    let p7 = rdf::people_statements(iri, "bcc"@, headers::lookup(e, "bcc"@));
    let p8 = rdf::people_statements(iri, "replyTo"@, headers::lookup(e, "reply-to"@));
    let p9 = rdf::text_statements(iri, "userAgent"@, agent);
    let p10 = rdf::text_statements(iri, "bodyText"@, body);
    let s2 = p1 + p2;
    let s3 = s2 + p3;
    let s4 = s3 + p4;
    let s5 = s4 + p5;
    let s6 = s5 + p6;
    let s7 = s6 + p7;
    let s8 = s7 + p8;
    let s9 = s8 + p9;
    either_holds(p1, p2, st);
    either_holds(s2, p3, st);
    either_holds(s3, p4, st);
    either_holds(s4, p5, st);
    either_holds(s5, p6, st);
    either_holds(s6, p7, st);
    either_holds(s7, p8, st);
    either_holds(s8, p9, st);
    either_holds(s9, p10, st);
    assert(rdf::projection(message, parts, base, include_body) == s9 + p10);
    people_are_all_stated(iri, "from"@, headers::lookup(e, "from"@), st);
    people_are_all_stated(iri, "to"@, headers::lookup(e, "to"@), st);
    people_are_all_stated(iri, "cc"@, headers::lookup(e, "cc"@), st);
    people_are_all_stated(iri, "bcc"@, headers::lookup(e, "bcc"@), st);
    people_are_all_stated(iri, "replyTo"@, headers::lookup(e, "reply-to"@), st);
    base_says(iri, folder, message, st);
    id_says(iri, id, st);
    subject_says(iri, subject, st);
    text_says(iri, "userAgent"@, agent, st);
    text_says(iri, "bodyText"@, body, st);
}

proof fn base_says(iri: Seq<char>, folder: Seq<char>, message: imap::MessageModel, st: Statement)
    ensures
        rdf::base_statements(iri, folder, message).len() == 6,
        rdf::base_statements(iri, folder, message).contains(st) <==> {
            let rdf_type = "http://www.w3.org/1999/02/22-rdf-syntax-ns#type"@;
            ||| st == rdf::link(iri, rdf_type, rdf::mail("Message"@))
            ||| st == rdf::link(iri, rdf_type, rdf::schema("CreativeWork"@))
            ||| st == rdf::link(iri, rdf::mail("folder"@), folder)
            ||| st == rdf::link(folder, rdf_type, rdf::mail("Mailbox"@))
            ||| st == rdf::note(
                iri,
                rdf::mail("sourcePath"@),
                imap::message_uri(message.account, message.mailbox, message.uid),
            )
            ||| st == (Statement {
                subject: iri,
                predicate: rdf::mail("size"@),
                object: Object::Literal {
                    value: text::decimal(message.rfc822.len()),
                    datatype: Some("http://www.w3.org/2001/XMLSchema#integer"@),
                },
            })
        },
{
    let all = rdf::base_statements(iri, folder, message);
    assert(all[0] == all[0] && all[1] == all[1] && all[2] == all[2]);
    assert(all[3] == all[3] && all[4] == all[4] && all[5] == all[5]);
}

proof fn id_says(iri: Seq<char>, id: Option<Seq<char>>, st: Statement)
    ensures
        rdf::id_statements(iri, id).len() == 2 * count(id),
        rdf::id_statements(iri, id).contains(st) <==> (id matches Some(id) && (st == rdf::note(
            iri,
            rdf::mail("messageId"@),
            id,
        ) || st == rdf::link(iri, rdf::mail("mid"@), rdf::mid(id)))),
{
    let all = rdf::id_statements(iri, id);
    assert(all[0] == all[0] && all[1] == all[1]);
}

proof fn subject_says(iri: Seq<char>, subject: Option<Seq<char>>, st: Statement)
    ensures
        rdf::subject_statements(iri, subject).len() == 2 * count(subject),
        rdf::subject_statements(iri, subject).contains(st) <==> (subject matches Some(subject) && (
        st == rdf::note(iri, rdf::mail("subject"@), subject) || st == rdf::note(
            iri,
            rdf::mail("normalizedSubject"@),
            rdf::normalized(subject),
        ))),
{
    let all = rdf::subject_statements(iri, subject);
    assert(all[0] == all[0] && all[1] == all[1]);
}

proof fn text_says(iri: Seq<char>, predicate: Seq<char>, value: Option<Seq<char>>, st: Statement)
    ensures
        rdf::text_statements(iri, predicate, value).len() == count(value),
        rdf::text_statements(iri, predicate, value).contains(st) <==> (value matches Some(v) && st
            == rdf::note(iri, rdf::mail(predicate), v)),
{
    let all = rdf::text_statements(iri, predicate, value);
    if let Some(v) = value {
        assert(all[0] == rdf::note(iri, rdf::mail(predicate), v));
    }
}

/// The statements come in a fixed order: what is said of every message, and then
/// the identifier, the subject, the address headers, the user agent and the body.
pub proof fn statements_come_in_order(
    message: imap::MessageModel,
    parts: headers::HeadersModel,
    base: Seq<char>,
    include_body: bool,
)
    ensures
        ({
            let e = parts.entries;
            let id = headers::lookup(e, "message-id"@);
            let iri = rdf::message_iri(base, id, message);
            let all = rdf::projection(message, parts, base, include_body);
            let a = 6 + 2 * count(id) as int;
            let b = a + 2 * count(headers::lookup(e, "subject"@));
            let c = b + 4 * address_count(headers::lookup(e, "from"@));
            let d = c + 4 * address_count(headers::lookup(e, "to"@));
            let f = d + 4 * address_count(headers::lookup(e, "cc"@));
            let g = f + 4 * address_count(headers::lookup(e, "bcc"@));
            let h = g + 4 * address_count(headers::lookup(e, "reply-to"@));
            &&& all.subrange(6, a) == rdf::id_statements(iri, id)
            &&& all.subrange(a, b) == rdf::subject_statements(
                iri,
                headers::lookup(e, "subject"@),
            )
            &&& all.subrange(b, c) == rdf::people_statements(
                iri,
                "from"@,
                headers::lookup(e, "from"@),
            )
            &&& all.subrange(c, d) == rdf::people_statements(
                iri,
                "to"@,
                headers::lookup(e, "to"@),
            )
            &&& all.subrange(d, f) == rdf::people_statements(
                iri,
                "cc"@,
                headers::lookup(e, "cc"@),
            )
            &&& all.subrange(f, g) == rdf::people_statements(
                iri,
                "bcc"@,
                headers::lookup(e, "bcc"@),
            )
            &&& all.subrange(g, h) == rdf::people_statements(
                iri,
                "replyTo"@,
                headers::lookup(e, "reply-to"@),
            )
            &&& all.take(6) == rdf::base_statements(
                iri,
                rdf::folder_iri(base, message.mailbox),
                message,
            )
        }),
{
    let e = parts.entries;
    let id = headers::lookup(e, "message-id"@);
    let iri = rdf::message_iri(base, id, message);
    let folder = rdf::folder_iri(base, message.mailbox);
    let any = rdf::link(iri, iri, iri);
    let subject = headers::lookup(e, "subject"@);
    people_are_all_stated(iri, "from"@, headers::lookup(e, "from"@), any);
    people_are_all_stated(iri, "to"@, headers::lookup(e, "to"@), any);
    people_are_all_stated(iri, "cc"@, headers::lookup(e, "cc"@), any);
    people_are_all_stated(iri, "bcc"@, headers::lookup(e, "bcc"@), any);
    people_are_all_stated(iri, "replyTo"@, headers::lookup(e, "reply-to"@), any);
    base_says(iri, folder, message, any);
    id_says(iri, id, any);
    subject_says(iri, subject, any);
    let agent = match headers::lookup(e, "user-agent"@) {
        Some(agent) => Some(agent),
        None => headers::lookup(e, "x-mailer"@),
    };
    let body = if include_body {
        headers::text_of_body(parts.body)
    } else {
        None
    };
    pieces_lie_in_order(
        rdf::base_statements(iri, folder, message),
        rdf::id_statements(iri, id),
        rdf::subject_statements(iri, subject),
        rdf::people_statements(iri, "from"@, headers::lookup(e, "from"@)),
        rdf::people_statements(iri, "to"@, headers::lookup(e, "to"@)),
        rdf::people_statements(iri, "cc"@, headers::lookup(e, "cc"@)),
        rdf::people_statements(iri, "bcc"@, headers::lookup(e, "bcc"@)),
        rdf::people_statements(iri, "replyTo"@, headers::lookup(e, "reply-to"@)),
        rdf::text_statements(iri, "userAgent"@, agent),
        rdf::text_statements(iri, "bodyText"@, body),
    );
}

proof fn pieces_lie_in_order(
    p1: Seq<Statement>,
    p2: Seq<Statement>,
    p3: Seq<Statement>,
    p4: Seq<Statement>,
    p5: Seq<Statement>,
    p6: Seq<Statement>,
    p7: Seq<Statement>,
    p8: Seq<Statement>,
    p9: Seq<Statement>,
    p10: Seq<Statement>,
)
    ensures
        ({
            let all = p1 + p2 + p3 + p4 + p5 + p6 + p7 + p8 + p9 + p10;
            let a = p1.len() + p2.len() as int;
            let b = a + p3.len();
            let c = b + p4.len();
            let d = c + p5.len();
            let f = d + p6.len();
            let g = f + p7.len();
            let h = g + p8.len();
            &&& all.take(p1.len() as int) == p1
            &&& all.subrange(p1.len() as int, a) == p2
            &&& all.subrange(a, b) == p3
            &&& all.subrange(b, c) == p4
            &&& all.subrange(c, d) == p5
            &&& all.subrange(d, f) == p6
            &&& all.subrange(f, g) == p7
            &&& all.subrange(g, h) == p8
        }),
{
    let s2 = p1 + p2;
    let s3 = s2 + p3;
    let s4 = s3 + p4;
    let s5 = s4 + p5;
    let s6 = s5 + p6;
    let s7 = s6 + p7;
    let s8 = s7 + p8;
    let s9 = s8 + p9;
    let all = s9 + p10;
    assert(all.take(p1.len() as int) =~= p1);
    assert(all.subrange(p1.len() as int, s2.len() as int) =~= p2);
    assert(all.subrange(s2.len() as int, s3.len() as int) =~= p3);
    assert(all.subrange(s3.len() as int, s4.len() as int) =~= p4);
    assert(all.subrange(s4.len() as int, s5.len() as int) =~= p5);
    assert(all.subrange(s5.len() as int, s6.len() as int) =~= p6);
    assert(all.subrange(s6.len() as int, s7.len() as int) =~= p7);
    assert(all.subrange(s7.len() as int, s8.len() as int) =~= p8);
}

/// A document of no statements is empty, one more statement is one more line, and
/// the lines of all statements follow one another.
pub proof fn documents_are_lines(
    a: Seq<Statement>,
    b: Seq<Statement>,
    st: Statement,
    graph: Option<Seq<char>>,
)
    ensures
        rdf::document(Seq::<Statement>::empty(), graph).len() == 0,
        rdf::document(seq![st], graph) == rdf::statement_text(st, graph) + "\n"@,
        rdf::document(a + b, graph) == rdf::document(a, graph) + rdf::document(b, graph),
{
    rdf::document_of_one(st, graph);
    rdf::document_of_concatenation(a, b, graph);
}

/// A message is projected by its own headers and body, under the base of the data
/// IRI.
pub proof fn message_is_projected_by_its_parts(
    message: imap::MessageModel,
    data_iri: Seq<char>,
    include_body: bool,
)
    ensures
        rdf::message_statements(message, data_iri, include_body) == rdf::projection(
            message,
            headers::parsed(message.rfc822),
            rdf::base_iri(data_iri),
            include_body,
        ),
{
}

// ---------------------------------------------------------------------------
// Updates

/// A deletion names the graph in both its parts, and matches messages by the
/// whole quoted source, or by the beginning of the source that all messages of
/// the mailbox have.
pub proof fn deletions_name_graph_and_source(
    graph: Seq<char>,
    source: Seq<char>,
    account: Seq<char>,
    mailbox: Seq<char>,
)
    ensures
        ({
            let before = "DELETE { GRAPH <"@ + graph
                + "> { ?message ?predicate ?object } } WHERE { GRAPH <"@ + graph
                + "> { ?message <"@ + ("https://mail.described.at/"@ + "sourcePath"@) + "> "@;
            &&& rdf::delete_source(source, graph) == before + (rdf::quoted(source)
                + " ; ?predicate ?object"@) + " } } ;\n"@
            &&& rdf::delete_mailbox(account, mailbox, graph) == before + (
            "?source ; ?predicate ?object FILTER(STRSTARTS(STR(?source), "@ + rdf::quoted(
                "imap://"@ + account + "/"@ + mailbox + ";uid="@,
            ) + "))"@) + " } } ;\n"@
        }),
{
}

/// An insertion names the graph and holds the N-Triples of the message, all of
/// them, whatever its flags and its modification sequence.
pub proof fn insertions_hold_the_triples(
    message: imap::MessageModel,
    graph: Seq<char>,
    data_iri: Seq<char>,
    include_body: bool,
)
    ensures
        rdf::insert_message(message, graph, data_iri, include_body) == "INSERT DATA { GRAPH <"@
            + graph + "> {\n"@ + rdf::document(
            rdf::message_statements(message, data_iri, include_body),
            None,
        ) + "} } ;\n"@,
        forall|other: imap::MessageModel|
            #![trigger rdf::insert_message(other, graph, data_iri, include_body)]
            other.uid == message.uid && other.account == message.account && other.mailbox
                == message.mailbox && other.rfc822 == message.rfc822 ==> rdf::insert_message(
                other,
                graph,
                data_iri,
                include_body,
            ) == rdf::insert_message(message, graph, data_iri, include_body),
{
    assert forall|other: imap::MessageModel|
        #![trigger rdf::insert_message(other, graph, data_iri, include_body)]
        other.uid == message.uid && other.account == message.account && other.mailbox
            == message.mailbox && other.rfc822 == message.rfc822 implies rdf::insert_message(
        other,
        graph,
        data_iri,
        include_body,
    ) == rdf::insert_message(message, graph, data_iri, include_body) by {
        assert(rdf::message_statements(other, data_iri, include_body) =~= rdf::message_statements(
            message,
            data_iri,
            include_body,
        ));
    }
}

} // verus!
