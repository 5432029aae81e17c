//! RDF projection for messages fetched from IMAP.
//!
//! Namespaces and property names are intentionally kept identical to the
//! companion `mbox-rdf` project. Output is N-Triples when `graph` is absent
//! and N-Quads when it is provided.

use vstd::prelude::*;
use vstd::slice::slice_subrange;
use vstd::utf8;

use crate::foundation;
use crate::headers;
use crate::headers::Headers;
use crate::imap;
use crate::imap::FetchedMessage;
use crate::text;

verus! {

pub const MAIL: &'static str = "https://mail.described.at/";

pub const SCHEMA: &'static str = "http://schema.org/";

pub const RDF_TYPE: &'static str = "http://www.w3.org/1999/02/22-rdf-syntax-ns#type";

pub const XSD_INTEGER: &'static str = "http://www.w3.org/2001/XMLSchema#integer";

// ---------------------------------------------------------------------------
// Escaping

/// A character as it stands inside a literal.
pub open spec fn escaped_char(c: char) -> Seq<char> {
    if c == '\\' {
        seq!['\\', '\\']
    } else if c == '"' {
        seq!['\\', '"']
    } else if c == '\n' {
        seq!['\\', 'n']
    } else if c == '\r' {
        seq!['\\', 'r']
    } else if c == '\t' {
        seq!['\\', 't']
    } else {
        seq![c]
    }
}

/// A text as it stands inside a literal.
pub open spec fn escaped(s: Seq<char>) -> Seq<char>
    decreases s.len(),
{
    if s.len() == 0 {
        seq![]
    } else {
        escaped(s.drop_last()) + escaped_char(s.last())
    }
}

/// The form of a text inside a literal.
pub fn escape(value: &str) -> (r: String)
    ensures
        r@ == escaped(value@),
{
    let chars = text::chars_of(value);
    let mut out = String::new();
    let mut i: usize = 0;
    assert(chars@.take(0) == Seq::<char>::empty());
    while i < chars.len()
        invariant
            i <= chars@.len(),
            out@ == escaped(chars@.take(i as int)),
        decreases chars.len() - i,
    {
        let c: char = chars[i];
        proof {
            assert(chars@.take(i + 1).drop_last() == chars@.take(i as int));
            assert(chars@.take(i + 1).last() == c);
        }
        if c == '\\' {
            out.push('\\');
            out.push('\\');
        } else if c == '"' {
            out.push('\\');
            out.push('"');
        } else if c == '\n' {
            out.push('\\');
            out.push('n');
        } else if c == '\r' {
            out.push('\\');
            out.push('r');
        } else if c == '\t' {
            out.push('\\');
            out.push('t');
        } else {
            out.push(c);
        }
        i += 1;
        assert(out@ == escaped(chars@.take(i as int)));
    }
    assert(chars@.take(i as int) == chars@);
    out
}

/// Which bytes stand for themselves in an IRI.
#[derive(Clone, Copy, Debug, Eq, PartialEq, Structural)]
pub enum SafeSet {
    /// The unreserved characters.
    Unreserved,
    /// What a `mid:` IRI admits unencoded.
    MessageId,
}

/// ASCII letters and digits.
pub open spec fn is_alphanumeric(b: u8) -> bool {
    ||| 0x41 <= b <= 0x5A
    ||| 0x61 <= b <= 0x7A
    ||| 0x30 <= b <= 0x39
}

/// Whether a byte stands for itself.
pub open spec fn is_safe(b: u8, safe: SafeSet) -> bool {
    let c = b as char;
    ||| is_alphanumeric(b)
    ||| c == '-' || c == '.' || c == '_' || c == '~'
    ||| safe is MessageId && {
        ||| c == '!' || c == '$' || c == '&' || c == '\'' || c == '(' || c == ')'
        ||| c == '*' || c == '+' || c == ',' || c == ';' || c == '=' || c == ':' || c == '@'
    }
}

/// The upper-case hexadecimal digit for a number below sixteen.
pub open spec fn hex_digit(n: u8) -> char {
    if n < 10 {
        (0x30 + n) as char
    } else {
        (0x41 + n - 10) as char
    }
}

/// A byte in an IRI: itself, or a percent sign and two hexadecimal digits.
pub open spec fn encoded_byte(b: u8, safe: SafeSet) -> Seq<char> {
    if is_safe(b, safe) {
        seq![b as char]
    } else {
        seq!['%', hex_digit(b / 16), hex_digit(b % 16)]
    }
}

/// A sequence of bytes in an IRI.
pub open spec fn encoded_bytes(bytes: Seq<u8>, safe: SafeSet) -> Seq<char>
    decreases bytes.len(),
{
    if bytes.len() == 0 {
        seq![]
    } else {
        encoded_bytes(bytes.drop_last(), safe) + encoded_byte(bytes.last(), safe)
    }
}

/// A text in an IRI: its UTF-8 bytes, those outside the safe set encoded.
pub open spec fn encoded(s: Seq<char>, safe: SafeSet) -> Seq<char> {
    encoded_bytes(utf8::encode_utf8(s), safe)
}

fn safe_byte(b: u8, safe: SafeSet) -> (r: bool)
    ensures
        r == is_safe(b, safe),
{
    let c: char = b as char;
    let plain: bool = (0x41 <= b && b <= 0x5A) || (0x61 <= b && b <= 0x7A) || (0x30 <= b && b
        <= 0x39) || c == '-' || c == '.' || c == '_' || c == '~';
    let extra: bool = c == '!' || c == '$' || c == '&' || c == '\'' || c == '(' || c == ')' || c
        == '*' || c == '+' || c == ',' || c == ';' || c == '=' || c == ':' || c == '@';
    plain || (safe == SafeSet::MessageId && extra)
}

fn to_hex_digit(n: u8) -> (c: char)
    requires
        n < 16,
    ensures
        c == hex_digit(n),
{
    if n < 10 {
        (0x30 + n) as char
    } else {
        (0x41 + n - 10) as char
    }
}

fn encode(value: &str, safe: SafeSet) -> (r: String)
    ensures
        r@ == encoded(value@, safe),
{
    let bytes: &[u8] = value.as_bytes();
    let mut out = String::new();
    let mut i: usize = 0;
    assert(bytes@.take(0) == Seq::<u8>::empty());
    while i < bytes.len()
        invariant
            i <= bytes@.len(),
            out@ == encoded_bytes(bytes@.take(i as int), safe),
        decreases bytes.len() - i,
    {
        let b: u8 = bytes[i];
        proof {
            assert(bytes@.take(i + 1).drop_last() == bytes@.take(i as int));
            assert(bytes@.take(i + 1).last() == b);
        }
        if safe_byte(b, safe) {
            out.push(b as char);
        } else {
            out.push('%');
            out.push(to_hex_digit(b / 16));
            out.push(to_hex_digit(b % 16));
        }
        i += 1;
        assert(out@ == encoded_bytes(bytes@.take(i as int), safe));
    }
    assert(bytes@.take(i as int) == bytes@);
    out
}

/// A text with every byte encoded that is not an unreserved character.
pub fn percent_encode(value: &str) -> (r: String)
    ensures
        r@ == encoded(value@, SafeSet::Unreserved),
{
    encode(value, SafeSet::Unreserved)
}

/// The `mid:` IRI of a message identifier.
pub open spec fn mid(value: Seq<char>) -> Seq<char> {
    "mid:"@ + encoded(value, SafeSet::MessageId)
}

/// The `mid:` IRI of a message identifier.
pub fn mid_iri(value: &str) -> (r: String)
    ensures
        r@ == mid(value@),
{
    let mut out = "mid:".to_owned();
    out.append(encode(value, SafeSet::MessageId).as_str());
    out
}

// ---------------------------------------------------------------------------
// Subjects and addresses

/// Whether a word before a colon marks a reply or a forwarded message.
pub open spec fn is_reply_mark(word: Seq<char>) -> bool {
    let lower = text::ascii_lowercase(text::trimmed(word));
    lower == "re"@ || lower == "fwd"@ || lower == "fw"@ || lower == "aw"@
}

/// A subject without the reply marks at its start.
pub open spec fn without_reply_marks(s: Seq<char>) -> Seq<char>
    decreases s.len(),
{
    match text::split_once(s, ':') {
        Some((word, rest)) => {
            if is_reply_mark(word) {
                proof {
                    text::first_of_is_first(s, ':');
                    text::trimmed_is_no_longer(rest);
                }
                without_reply_marks(text::trimmed(rest))
            } else {
                s
            }
        },
        None => s,
    }
}

/// A subject without surrounding white space and without reply marks.
pub open spec fn normalized(subject: Seq<char>) -> Seq<char> {
    without_reply_marks(text::trimmed(subject))
}

fn reply_mark(word: &[char]) -> (r: bool)
    ensures
        r == is_reply_mark(word@),
{
    let lower = text::to_ascii_lowercase(text::trim(word));
    let w: &[char] = lower.as_slice();
    text::is_text(w, "re") || text::is_text(w, "fwd") || text::is_text(w, "fw") || text::is_text(
        w,
        "aw",
    )
}

/// A subject without surrounding white space and without reply marks.
pub fn normalize_subject(subject: &str) -> (r: String)
    ensures
        r@ == normalized(subject@),
{
    let chars = text::chars_of(subject);
    let mut result: &[char] = text::trim(chars.as_slice());
    loop
        invariant
            without_reply_marks(result@) == normalized(subject@),
        decreases result@.len(),
    {
        let colon: usize = text::find(result, ':');
        if colon == result.len() {
            return text::string_of(result);
        }
        let word = slice_subrange(result, 0, colon);
        let rest = slice_subrange(result, colon + 1, result.len());
        proof {
            assert(word@ == result@.take(colon as int));
            assert(rest@ == result@.skip(colon + 1));
            text::trimmed_is_no_longer(rest@);
        }
        if reply_mark(word) {
            result = text::trim(rest);
        } else {
            return text::string_of(result);
        }
    }
}

/// The address in one part of an address list: what the last angle bracket
/// encloses, or else the whole part.
pub open spec fn address_in(part: Seq<char>) -> Seq<char> {
    let whole = text::trimmed(part);
    match text::rsplit_once(whole, '<') {
        Some((_, inner)) => text::trimmed(text::trim_end_of(inner, '>')),
        None => whole,
    }
}

/// The addresses in the parts of an address list. What holds no `@` is none.
pub open spec fn addresses_in(parts: Seq<Seq<char>>) -> Seq<Seq<char>>
    decreases parts.len(),
{
    if parts.len() == 0 {
        seq![]
    } else {
        let before = addresses_in(parts.drop_last());
        let address = address_in(parts.last());
        if address.contains('@') {
            before.push(address)
        } else {
            before
        }
    }
}

/// The addresses in an address list.
pub open spec fn address_list(value: Seq<char>) -> Seq<Seq<char>> {
    addresses_in(text::split_at_each(value, ','))
}

fn find_address(part: &[char]) -> (r: &[char])
    ensures
        r@ == address_in(part@),
{
    let whole = text::trim(part);
    match text::rfind(whole, '<') {
        Some(i) => {
            let inner = slice_subrange(whole, i + 1, whole.len());
            assert(inner@ == whole@.skip(i + 1));
            text::trim(text::trim_end_matches(inner, '>'))
        },
        None => {
            proof {
                text::last_of_is_last(whole@, '<');
            }
            whole
        },
    }
}

/// The addresses in an address list.
pub fn addresses(value: &str) -> (r: Vec<String>)
    ensures
        text::texts(r@) == address_list(value@),
{
    let chars = text::chars_of(value);
    let parts = text::split(chars.as_slice(), ',');
    let ghost all = text::slices(parts@);
    let mut found: Vec<String> = Vec::new();
    let mut i: usize = 0;
    assert(all.take(0) == Seq::<Seq<char>>::empty());
    assert(text::texts(found@) == Seq::<Seq<char>>::empty());
    while i < parts.len()
        invariant
            i <= parts@.len(),
            all == text::slices(parts@),
            text::texts(found@) == addresses_in(all.take(i as int)),
        decreases parts.len() - i,
    {
        let address = find_address(parts[i]);
        proof {
            assert(all.take(i + 1).drop_last() == all.take(i as int));
            assert(all.take(i + 1).last() == parts@[i as int]@);
        }
        if text::contains_char(address, '@') {
            let ghost before = found@;
            found.push(text::string_of(address));
            assert(text::texts(found@) == text::texts(before).push(address@));
        }
        i += 1;
    }
    assert(all.take(i as int) == all);
    found
}

// ---------------------------------------------------------------------------
// Statements

/// What a statement says of its subject.
pub enum Object {
    Iri(Seq<char>),
    Literal { value: Seq<char>, datatype: Option<Seq<char>> },
}

/// An RDF statement.
pub struct Statement {
    pub subject: Seq<char>,
    pub predicate: Seq<char>,
    pub object: Object,
}

/// A statement about another resource.
pub open spec fn link(subject: Seq<char>, predicate: Seq<char>, object: Seq<char>) -> Statement {
    Statement { subject, predicate, object: Object::Iri(object) }
}

/// A statement about a text.
pub open spec fn note(subject: Seq<char>, predicate: Seq<char>, value: Seq<char>) -> Statement {
    Statement { subject, predicate, object: Object::Literal { value, datatype: None } }
}

/// A literal of a text.
pub open spec fn quoted(value: Seq<char>) -> Seq<char> {
    "\""@ + escaped(value) + "\""@
}

/// An object as it is written.
pub open spec fn object_term(object: Object) -> Seq<char> {
    match object {
        Object::Iri(iri) => "<"@ + iri + ">"@,
        Object::Literal { value, datatype: None } => quoted(value),
        Object::Literal { value, datatype: Some(kind) } => quoted(value) + "^^<"@ + kind + ">"@,
    }
}

/// A statement as it is written, without the end of the line: a triple, or a
/// quad if there is a graph.
pub open spec fn statement_text(st: Statement, graph: Option<Seq<char>>) -> Seq<char> {
    let triple = "<"@ + st.subject + "> <"@ + st.predicate + "> "@ + object_term(st.object);
    match graph {
        Some(g) => triple + " <"@ + g + "> ."@,
        None => triple + " ."@,
    }
}

/// Statements as they are written, each on a line of its own.
pub open spec fn document(statements: Seq<Statement>, graph: Option<Seq<char>>) -> Seq<char>
    decreases statements.len(),
{
    if statements.len() == 0 {
        seq![]
    } else {
        document(statements.drop_last(), graph) + statement_text(statements.last(), graph)
            + "\n"@
    }
}

/// The lines of two sequences of statements are those of the first and then
/// those of the second.
pub proof fn document_of_concatenation(
    a: Seq<Statement>,
    b: Seq<Statement>,
    graph: Option<Seq<char>>,
)
    ensures
        document(a + b, graph) == document(a, graph) + document(b, graph),
    decreases b.len(),
{
    if b.len() == 0 {
        assert(a + b == a);
    } else {
        document_of_concatenation(a, b.drop_last(), graph);
        assert((a + b).drop_last() == a + b.drop_last());
        assert(document(a + b, graph) == document(a, graph) + document(b, graph));
    }
}

/// A single statement is one line.
pub proof fn document_of_one(st: Statement, graph: Option<Seq<char>>)
    ensures
        document(seq![st], graph) == statement_text(st, graph) + "\n"@,
{
    reveal_with_fuel(document, 2);
    assert(seq![st].drop_last() == Seq::<Statement>::empty());
    assert(document(seq![st], graph) == statement_text(st, graph) + "\n"@);
}

fn end_statement(out: &mut String, graph: &Option<String>)
    ensures
        final(out)@ == old(out)@ + match *graph {
            Some(g) => " <"@ + g@ + "> .\n"@,
            None => " .\n"@,
        },
{
    match graph {
        Some(g) => {
            out.append(" <");
            out.append(g.as_str());
            out.append("> .\n");
        },
        None => {
            out.append(" .\n");
        },
    }
}

proof fn ends_of_lines()
    ensures
        "> .\n"@ == "> ."@ + "\n"@,
        " .\n"@ == " ."@ + "\n"@,
{
    reveal_strlit("> .\n");
    reveal_strlit("> .");
    reveal_strlit("\n");
    reveal_strlit(" .\n");
    reveal_strlit(" .");
    assert("> .\n"@ =~= "> ."@ + "\n"@);
    assert(" .\n"@ =~= " ."@ + "\n"@);
}

fn iri(out: &mut String, s: &str, p: &str, o: &str, graph: &Option<String>)
    ensures
        final(out)@ == old(out)@ + document(seq![link(s@, p@, o@)], text::maybe_owned(*graph)),
{
    proof {
        ends_of_lines();
        document_of_one(link(s@, p@, o@), text::maybe_owned(*graph));
    }
    out.append("<");
    out.append(s);
    out.append("> <");
    out.append(p);
    out.append("> ");
    out.append("<");
    out.append(o);
    out.append(">");
    end_statement(out, graph);
    assert(out@ == old(out)@ + (statement_text(link(s@, p@, o@), text::maybe_owned(*graph))
        + "\n"@));
}

fn literal(
    out: &mut String,
    s: &str,
    p: &str,
    value: &str,
    datatype: Option<&str>,
    graph: &Option<String>,
)
    ensures
        final(out)@ == old(out)@ + document(
            seq![
                Statement {
                    subject: s@,
                    predicate: p@,
                    object: Object::Literal {
                        value: value@,
                        datatype: text::maybe(datatype),
                    },
                },
            ],
            text::maybe_owned(*graph),
        ),
{
    let ghost st = Statement {
        subject: s@,
        predicate: p@,
        object: Object::Literal {
            value: value@,
            datatype: text::maybe(datatype),
        },
    };
    proof {
        ends_of_lines();
        document_of_one(st, text::maybe_owned(*graph));
    }
    out.append("<");
    out.append(s);
    out.append("> <");
    out.append(p);
    out.append("> ");
    push_quoted(out, value);
    if let Some(kind) = datatype {
        out.append("^^<");
        out.append(kind);
        out.append(">");
    }
    end_statement(out, graph);
    assert(out@ == old(out)@ + (statement_text(st, text::maybe_owned(*graph)) + "\n"@));
}

fn push_quoted(out: &mut String, value: &str)
    ensures
        final(out)@ == old(out)@ + quoted(value@),
{
    out.append("\"");
    out.append(escape(value).as_str());
    out.append("\"");
}

// ---------------------------------------------------------------------------
// The projection

/// How messages are projected.
#[derive(Clone, Debug)]
pub struct RdfOptions {
    /// Base for generated instance IRIs; matches `mbox-rdf`'s `data_iri`.
    pub data_iri: String,
    /// Optional per-account named graph, matching the `mbox-rdf` convention.
    pub graph: Option<String>,
    pub include_body: bool,
}

impl Default for RdfOptions {
    fn default() -> (options: Self)
        ensures
            options.data_iri@ == "https://example.org/data/"@,
            options.graph is None,
            !options.include_body,
    {
        RdfOptions {
            data_iri: "https://example.org/data/".to_owned(),
            graph: None,
            include_body: false,
        }
    }
}

/// The base of instance IRIs, with exactly one slash at its end.
pub open spec fn base_iri(data_iri: Seq<char>) -> Seq<char> {
    text::trim_end_of(data_iri, '/') + "/"@
}

impl RdfOptions {
    /// The base of instance IRIs.
    pub fn data_base(&self) -> (base: String)
        ensures
            base@ == base_iri(self.data_iri@),
    {
        let chars = text::chars_of(self.data_iri.as_str());
        let mut base = text::string_of(text::trim_end_matches(chars.as_slice(), '/'));
        base.append("/");
        base
    }
}

/// A term of the mail vocabulary.
pub open spec fn mail(name: Seq<char>) -> Seq<char> {
    MAIL@ + name
}

/// A term of the schema.org vocabulary.
pub open spec fn schema(name: Seq<char>) -> Seq<char> {
    SCHEMA@ + name
}

fn mail_term(name: &str) -> (iri: String)
    ensures
        iri@ == mail(name@),
{
    let mut iri = MAIL.to_owned();
    iri.append(name);
    iri
}

fn schema_term(name: &str) -> (iri: String)
    ensures
        iri@ == schema(name@),
{
    let mut iri = SCHEMA.to_owned();
    iri.append(name);
    iri
}

/// The IRI of a message: by its identifier if it has one that is not empty, and
/// else by account and UID.
pub open spec fn message_iri(
    base: Seq<char>,
    id: Option<Seq<char>>,
    message: imap::MessageModel,
) -> Seq<char> {
    if id is Some && id->0.len() > 0 {
        base + "msg/"@ + encoded(id->0, SafeSet::Unreserved)
    } else {
        base + "msg/imap/"@ + encoded(message.account, SafeSet::Unreserved) + "/"@ + text::decimal(
            message.uid as nat,
        )
    }
}

/// The IRI of a mailbox.
pub open spec fn folder_iri(base: Seq<char>, mailbox: Seq<char>) -> Seq<char> {
    base + "folder/"@ + encoded(mailbox, SafeSet::Unreserved)
}

/// What is said of every message.
pub open spec fn base_statements(
    iri: Seq<char>,
    folder: Seq<char>,
    message: imap::MessageModel,
) -> Seq<Statement> {
    seq![
        link(iri, RDF_TYPE@, mail("Message"@)),
        link(iri, RDF_TYPE@, schema("CreativeWork"@)),
        link(iri, mail("folder"@), folder),
        link(folder, RDF_TYPE@, mail("Mailbox"@)),
        note(
            iri,
            mail("sourcePath"@),
            imap::message_uri(message.account, message.mailbox, message.uid),
        ),
        Statement {
            subject: iri,
            predicate: mail("size"@),
            object: Object::Literal {
                value: text::decimal(message.rfc822.len()),
                datatype: Some(XSD_INTEGER@),
            },
        },
    ]
}

/// What is said of a message identifier.
pub open spec fn id_statements(iri: Seq<char>, id: Option<Seq<char>>) -> Seq<Statement> {
    match id {
        Some(id) => seq![note(iri, mail("messageId"@), id), link(iri, mail("mid"@), mid(id))],
        None => seq![],
    }
}

/// What is said of a subject.
pub open spec fn subject_statements(iri: Seq<char>, subject: Option<Seq<char>>) -> Seq<Statement> {
    match subject {
        Some(value) => seq![
            note(iri, mail("subject"@), value),
            note(iri, mail("normalizedSubject"@), normalized(value)),
        ],
        None => seq![],
    }
}

/// The IRI of a mail account, by its address in lower case.
pub open spec fn account_iri(lower: Seq<char>) -> Seq<char> {
    "mailto:"@ + encoded(lower, SafeSet::Unreserved)
}

/// What is said of an address. `lower` and `lower_domain` are the address and
/// its domain in lower case.
pub open spec fn address_statements(
    iri: Seq<char>,
    predicate: Seq<char>,
    address: Seq<char>,
    lower: Seq<char>,
    lower_domain: Option<Seq<char>>,
) -> Seq<Statement> {
    let account = account_iri(lower);
    seq![
        link(iri, mail(predicate), account),
        link(account, RDF_TYPE@, mail("Account"@)),
        note(account, schema("email"@), address),
    ] + match lower_domain {
        Some(domain) => seq![note(account, mail("domain"@), domain)],
        None => seq![],
    }
}

/// What follows the last `@` of an address, in lower case.
pub open spec fn domain_of(address: Seq<char>) -> Option<Seq<char>> {
    match text::rsplit_once(address, '@') {
        Some((_, domain)) => Some(foundation::lowercase(domain)),
        None => None,
    }
}

/// What is said of several addresses.
pub open spec fn all_address_statements(
    iri: Seq<char>,
    predicate: Seq<char>,
    addresses: Seq<Seq<char>>,
) -> Seq<Statement>
    decreases addresses.len(),
{
    if addresses.len() == 0 {
        seq![]
    } else {
        let address = addresses.last();
        all_address_statements(iri, predicate, addresses.drop_last()) + address_statements(
            iri,
            predicate,
            address,
            foundation::lowercase(address),
            domain_of(address),
        )
    }
}

/// What is said of an address header.
pub open spec fn people_statements(
    iri: Seq<char>,
    predicate: Seq<char>,
    value: Option<Seq<char>>,
) -> Seq<Statement> {
    match value {
        Some(value) => all_address_statements(iri, predicate, address_list(value)),
        None => seq![],
    }
}

/// What is said with one text, if there is one.
pub open spec fn text_statements(
    iri: Seq<char>,
    predicate: Seq<char>,
    value: Option<Seq<char>>,
) -> Seq<Statement> {
    match value {
        Some(value) => seq![note(iri, mail(predicate), value)],
        None => seq![],
    }
}

/// Everything that is said of a message, given its header fields and its body.
pub open spec fn projection(
    message: imap::MessageModel,
    parts: headers::HeadersModel,
    base: Seq<char>,
    include_body: bool,
) -> Seq<Statement> {
    let id = headers::lookup(parts.entries, "message-id"@);
    let iri = message_iri(base, id, message);
    let agent = match headers::lookup(parts.entries, "user-agent"@) {
        Some(agent) => Some(agent),
        None => headers::lookup(parts.entries, "x-mailer"@),
    };
    base_statements(iri, folder_iri(base, message.mailbox), message)
        + id_statements(iri, id)
        + subject_statements(iri, headers::lookup(parts.entries, "subject"@))
        + people_statements(iri, "from"@, headers::lookup(parts.entries, "from"@))
        + people_statements(iri, "to"@, headers::lookup(parts.entries, "to"@))
        + people_statements(iri, "cc"@, headers::lookup(parts.entries, "cc"@))
        + people_statements(iri, "bcc"@, headers::lookup(parts.entries, "bcc"@))
        + people_statements(iri, "replyTo"@, headers::lookup(parts.entries, "reply-to"@))
        + text_statements(iri, "userAgent"@, agent)
        + text_statements(
            iri,
            "bodyText"@,
            if include_body {
                headers::text_of_body(parts.body)
            } else {
                None
            },
        )
}

/// Everything that is said of a message.
pub open spec fn message_statements(
    message: imap::MessageModel,
    data_iri: Seq<char>,
    include_body: bool,
) -> Seq<Statement> {
    projection(message, headers::parsed(message.rfc822), base_iri(data_iri), include_body)
}

/// One more statement is one more line.
proof fn document_extends(
    start: Seq<char>,
    done: Seq<Statement>,
    more: Seq<Statement>,
    graph: Option<Seq<char>>,
)
    ensures
        start + document(done, graph) + document(more, graph) == start + document(
            done + more,
            graph,
        ),
{
    document_of_concatenation(done, more, graph);
    assert(start + document(done, graph) + document(more, graph) == start + document(
        done + more,
        graph,
    ));
}

fn write_base(
    out: &mut String,
    message_iri: &str,
    folder_iri: &str,
    message: &FetchedMessage,
    graph: &Option<String>,
)
    ensures
        final(out)@ == old(out)@ + document(
            base_statements(message_iri@, folder_iri@, message@),
            text::maybe_owned(*graph),
        ),
{
    let ghost start = out@;
    let ghost g = text::maybe_owned(*graph);
    let ghost all = base_statements(message_iri@, folder_iri@, message@);
    let source = message.source_uri();
    let size = text::decimal_string(message.rfc822.len() as u64);
    iri(out, message_iri, RDF_TYPE, mail_term("Message").as_str(), graph);
    iri(out, message_iri, RDF_TYPE, schema_term("CreativeWork").as_str(), graph);
    proof {
        document_extends(start, seq![all[0]], seq![all[1]], g);
    }
    iri(out, message_iri, mail_term("folder").as_str(), folder_iri, graph);
    proof {
        document_extends(start, seq![all[0]] + seq![all[1]], seq![all[2]], g);
    }
    iri(out, folder_iri, RDF_TYPE, mail_term("Mailbox").as_str(), graph);
    proof {
        document_extends(start, seq![all[0]] + seq![all[1]] + seq![all[2]], seq![all[3]], g);
    }
    literal(
        out,
        message_iri,
        mail_term("sourcePath").as_str(),
        source.as_str(),
        None,
        graph,
    );
    proof {
        document_extends(
            start,
            seq![all[0]] + seq![all[1]] + seq![all[2]] + seq![all[3]],
            seq![all[4]],
            g,
        );
    }
    literal(
        out,
        message_iri,
        mail_term("size").as_str(),
        size.as_str(),
        Some(XSD_INTEGER),
        graph,
    );
    proof {
        let five = seq![all[0]] + seq![all[1]] + seq![all[2]] + seq![all[3]] + seq![all[4]];
        document_extends(start, five, seq![all[5]], g);
        assert(five + seq![all[5]] =~= all);
    }
}

fn write_id(out: &mut String, message_iri: &str, id: Option<&str>, graph: &Option<String>)
    ensures
        final(out)@ == old(out)@ + document(
            id_statements(
                message_iri@,
                text::maybe(id),
            ),
            text::maybe_owned(*graph),
        ),
{
    let ghost start = out@;
    if let Some(id) = id {
        let ghost all = id_statements(message_iri@, Some(id@));
        literal(out, message_iri, mail_term("messageId").as_str(), id, None, graph);
        iri(out, message_iri, mail_term("mid").as_str(), mid_iri(id).as_str(), graph);
        proof {
            document_extends(start, seq![all[0]], seq![all[1]], text::maybe_owned(*graph));
            assert(seq![all[0]] + seq![all[1]] =~= all);
        }
    }
}

fn write_subject(out: &mut String, message_iri: &str, subject: Option<&str>, graph: &Option<String>)
    ensures
        final(out)@ == old(out)@ + document(
            subject_statements(
                message_iri@,
                text::maybe(subject),
            ),
            text::maybe_owned(*graph),
        ),
{
    let ghost start = out@;
    if let Some(value) = subject {
        let ghost all = subject_statements(message_iri@, Some(value@));
        let normal = normalize_subject(value);
        literal(out, message_iri, mail_term("subject").as_str(), value, None, graph);
        literal(
            out,
            message_iri,
            mail_term("normalizedSubject").as_str(),
            normal.as_str(),
            None,
            graph,
        );
        proof {
            document_extends(start, seq![all[0]], seq![all[1]], text::maybe_owned(*graph));
            assert(seq![all[0]] + seq![all[1]] =~= all);
        }
    }
}

fn write_text(
    out: &mut String,
    message_iri: &str,
    predicate: &str,
    value: Option<&str>,
    graph: &Option<String>,
)
    ensures
        final(out)@ == old(out)@ + document(
            text_statements(
                message_iri@,
                predicate@,
                text::maybe(value),
            ),
            text::maybe_owned(*graph),
        ),
{
    if let Some(value) = value {
        literal(out, message_iri, mail_term(predicate).as_str(), value, None, graph);
    }
}

/// Writes what is said of an address. `lower` and `lower_domain` are the
/// address and its domain in lower case.
pub fn write_address(
    out: &mut String,
    message_iri: &str,
    predicate: &str,
    address: &str,
    lower: &str,
    lower_domain: Option<&str>,
    graph: &Option<String>,
)
    ensures
        final(out)@ == old(out)@ + document(
            address_statements(
                message_iri@,
                predicate@,
                address@,
                lower@,
                text::maybe(lower_domain),
            ),
            text::maybe_owned(*graph),
        ),
{
    let ghost start = out@;
    let ghost g = text::maybe_owned(*graph);
    let ghost all = address_statements(
        message_iri@,
        predicate@,
        address@,
        lower@,
        text::maybe(lower_domain),
    );
    let mut account = "mailto:".to_owned();
    account.append(percent_encode(lower).as_str());
    iri(out, message_iri, mail_term(predicate).as_str(), account.as_str(), graph);
    iri(out, account.as_str(), RDF_TYPE, mail_term("Account").as_str(), graph);
    proof {
        document_extends(start, seq![all[0]], seq![all[1]], g);
    }
    literal(out, account.as_str(), schema_term("email").as_str(), address, None, graph);
    let ghost three = seq![all[0]] + seq![all[1]] + seq![all[2]];
    proof {
        document_extends(start, seq![all[0]] + seq![all[1]], seq![all[2]], g);
    }
    if let Some(domain) = lower_domain {
        literal(out, account.as_str(), mail_term("domain").as_str(), domain, None, graph);
        proof {
            document_extends(start, three, seq![all[3]], g);
            assert(three + seq![all[3]] =~= all);
        }
    } else {
        assert(three =~= all);
    }
}

fn write_people(
    out: &mut String,
    message_iri: &str,
    predicate: &str,
    value: Option<&str>,
    graph: &Option<String>,
)
    ensures
        final(out)@ == old(out)@ + document(
            people_statements(
                message_iri@,
                predicate@,
                text::maybe(value),
            ),
            text::maybe_owned(*graph),
        ),
{
    let ghost start = out@;
    let ghost g = text::maybe_owned(*graph);
    let value = match value {
        Some(value) => value,
        None => {
            return;
        },
    };
    let list = addresses(value);
    let ghost all = text::texts(list@);
    let mut i: usize = 0;
    assert(all.take(0) == Seq::<Seq<char>>::empty());
    assert(out@ == start + document(
        all_address_statements(message_iri@, predicate@, all.take(0)),
        g,
    ));
    while i < list.len()
        invariant
            i <= list@.len(),
            all == text::texts(list@),
            g == text::maybe_owned(*graph),
            out@ == start + document(
                all_address_statements(message_iri@, predicate@, all.take(i as int)),
                g,
            ),
        decreases list.len() - i,
    {
        let address: &str = list[i].as_str();
        let lower = address.to_lowercase();
        let chars = text::chars_of(address);
        let domain: Option<String> = match text::rfind(chars.as_slice(), '@') {
            Some(at) => {
                let part = slice_subrange(chars.as_slice(), at + 1, chars.len());
                assert(part@ == chars@.skip(at + 1));
                Some(text::string_of(part).as_str().to_lowercase())
            },
            None => None,
        };
        proof {
            text::last_of_is_last(address@, '@');
            assert(text::maybe_owned(domain) == domain_of(address@));
            assert(all.take(i + 1).drop_last() == all.take(i as int));
            assert(all.take(i + 1).last() == address@);
            document_extends(
                start,
                all_address_statements(message_iri@, predicate@, all.take(i as int)),
                address_statements(
                    message_iri@,
                    predicate@,
                    address@,
                    lower@,
                    text::maybe_owned(domain),
                ),
                g,
            );
        }
        match &domain {
            Some(d) => write_address(
                out,
                message_iri,
                predicate,
                address,
                lower.as_str(),
                Some(d.as_str()),
                graph,
            ),
            None => write_address(
                out,
                message_iri,
                predicate,
                address,
                lower.as_str(),
                None,
                graph,
            ),
        }
        i += 1;
    }
    assert(all.take(i as int) == all);
}

fn iri_of_message(base: &str, id: Option<&str>, message: &FetchedMessage) -> (r: String)
    ensures
        r@ == message_iri(
            base@,
            text::maybe(id),
            message@,
        ),
{
    let mut r = base.to_owned();
    if let Some(id) = id {
        if !id.is_empty() {
            r.append("msg/");
            r.append(percent_encode(id).as_str());
            return r;
        }
    }
    r.append("msg/imap/");
    r.append(percent_encode(message.source.account.as_str()).as_str());
    r.append("/");
    r.append(text::decimal_string(message.uid as u64).as_str());
    r
}

fn write_message(
    message: &FetchedMessage,
    options: &RdfOptions,
    graph: &Option<String>,
) -> (out: String)
    ensures
        out@ == document(
            message_statements(message@, options.data_iri@, options.include_body),
            text::maybe_owned(*graph),
        ),
{
    let parts = Headers::parse(message.rfc822.as_slice());
    write_parts(message, &parts, options, graph)
}

/// Writes what is said of a message, given its header fields and its body.
pub fn write_parts(
    message: &FetchedMessage,
    parts: &Headers,
    options: &RdfOptions,
    graph: &Option<String>,
) -> (out: String)
    ensures
        out@ == document(
            projection(
                message@,
                parts@,
                base_iri(options.data_iri@),
                options.include_body,
            ),
            text::maybe_owned(*graph),
        ),
{
    let ghost g = text::maybe_owned(*graph);
    let base = options.data_base();
    let id = parts.get("message-id");
    let iri = iri_of_message(base.as_str(), id, message);
    let m: &str = iri.as_str();
    let mut folder = base.as_str().to_owned();
    folder.append("folder/");
    folder.append(percent_encode(message.source.mailbox.as_str()).as_str());
    let agent = match parts.get("user-agent") {
        Some(agent) => Some(agent),
        None => parts.get("x-mailer"),
    };
    let body = if options.include_body {
        parts.body_text()
    } else {
        None
    };
    let subject = parts.get("subject");
    let mut out = String::new();
    let ghost e = parts@.entries;
    let ghost s1 = base_statements(m@, folder@, message@);
    write_base(&mut out, m, folder.as_str(), message, graph);
    assert(out@ == document(s1, g));
    let ghost s2 = s1 + id_statements(m@, headers::lookup(e, "message-id"@));
    write_id(&mut out, m, id, graph);
    proof {
        document_of_concatenation(s1, id_statements(m@, headers::lookup(e, "message-id"@)), g);
    }
    let ghost s3 = s2 + subject_statements(m@, headers::lookup(e, "subject"@));
    write_subject(&mut out, m, subject, graph);
    proof {
        document_of_concatenation(s2, subject_statements(m@, headers::lookup(e, "subject"@)), g);
    }
    let ghost from = people_statements(m@, "from"@, headers::lookup(e, "from"@));
    let ghost s4 = s3 + from;
    write_people(&mut out, m, "from", parts.get("from"), graph);
    proof {
        document_of_concatenation(s3, from, g);
    }
    let ghost to = people_statements(m@, "to"@, headers::lookup(e, "to"@));
    let ghost s5 = s4 + to;
    write_people(&mut out, m, "to", parts.get("to"), graph);
    proof {
        document_of_concatenation(s4, to, g);
    }
    let ghost cc = people_statements(m@, "cc"@, headers::lookup(e, "cc"@));
    let ghost s6 = s5 + cc;
    write_people(&mut out, m, "cc", parts.get("cc"), graph);
    proof {
        document_of_concatenation(s5, cc, g);
    }
    let ghost bcc = people_statements(m@, "bcc"@, headers::lookup(e, "bcc"@));
    let ghost s7 = s6 + bcc;
    write_people(&mut out, m, "bcc", parts.get("bcc"), graph);
    proof {
        document_of_concatenation(s6, bcc, g);
    }
    let ghost reply = people_statements(m@, "replyTo"@, headers::lookup(e, "reply-to"@));
    let ghost s8 = s7 + reply;
    write_people(&mut out, m, "replyTo", parts.get("reply-to"), graph);
    proof {
        document_of_concatenation(s7, reply, g);
    }
    let ghost agent_text = text::maybe(agent);
    let ghost s9 = s8 + text_statements(m@, "userAgent"@, agent_text);
    write_text(&mut out, m, "userAgent", agent, graph);
    proof {
        document_of_concatenation(s8, text_statements(m@, "userAgent"@, agent_text), g);
    }
    let ghost body_text = text::maybe(body);
    write_text(&mut out, m, "bodyText", body, graph);
    proof {
        document_of_concatenation(s9, text_statements(m@, "bodyText"@, body_text), g);
        assert(s9 + text_statements(m@, "bodyText"@, body_text) == projection(
            message@,
            parts@,
            base_iri(options.data_iri@),
            options.include_body,
        ));
    }
    out
}

/// Converts one fetched RFC 822 message into `mbox-rdf`-compatible RDF.
pub fn message_to_nquads(message: &FetchedMessage, options: &RdfOptions) -> (rdf: String)
    ensures
        rdf@ == document(
            message_statements(message@, options.data_iri@, options.include_body),
            text::maybe_owned(options.graph),
        ),
{
    write_message(message, options, &options.graph)
}

// ---------------------------------------------------------------------------
// SPARQL updates

/// An update that deletes, in a graph, everything said of the messages that a
/// pattern matches.
pub open spec fn delete_update(graph: Seq<char>, pattern: Seq<char>) -> Seq<char> {
    "DELETE { GRAPH <"@ + graph + "> { ?message ?predicate ?object } } WHERE { GRAPH <"@ + graph
        + "> { ?message <"@ + mail("sourcePath"@) + "> "@ + pattern + " } } ;\n"@
}

/// The update that deletes the message at a source.
pub open spec fn delete_source(source: Seq<char>, graph: Seq<char>) -> Seq<char> {
    delete_update(graph, quoted(source) + " ; ?predicate ?object"@)
}

/// The update that deletes every message of a mailbox.
pub open spec fn delete_mailbox(
    account: Seq<char>,
    mailbox: Seq<char>,
    graph: Seq<char>,
) -> Seq<char> {
    delete_update(
        graph,
        "?source ; ?predicate ?object FILTER(STRSTARTS(STR(?source), "@ + quoted(
            imap::mailbox_uri_prefix(account, mailbox),
        ) + "))"@,
    )
}

/// The update that inserts what is said of a message.
pub open spec fn insert_message(
    message: imap::MessageModel,
    graph: Seq<char>,
    data_iri: Seq<char>,
    include_body: bool,
) -> Seq<char> {
    "INSERT DATA { GRAPH <"@ + graph + "> {\n"@ + document(
        message_statements(message, data_iri, include_body),
        None,
    ) + "} } ;\n"@
}

fn write_delete(graph: &str, pattern: &str) -> (update: String)
    ensures
        update@ == delete_update(graph@, pattern@),
{
    let mut update = "DELETE { GRAPH <".to_owned();
    update.append(graph);
    update.append("> { ?message ?predicate ?object } } WHERE { GRAPH <");
    update.append(graph);
    update.append("> { ?message <");
    update.append(mail_term("sourcePath").as_str());
    update.append("> ");
    update.append(pattern);
    update.append(" } } ;\n");
    update
}

fn delete_source_update(source: &str, graph: &str) -> (update: String)
    ensures
        update@ == delete_source(source@, graph@),
{
    let mut pattern = String::new();
    push_quoted(&mut pattern, source);
    pattern.append(" ; ?predicate ?object");
    assert(pattern@ == quoted(source@) + " ; ?predicate ?object"@);
    write_delete(graph, pattern.as_str())
}

/// The update that deletes every message of a mailbox.
pub fn delete_mailbox_update(account: &str, mailbox: &str, graph: &str) -> (update: String)
    ensures
        update@ == delete_mailbox(account@, mailbox@, graph@),
{
    let mut pattern = "?source ; ?predicate ?object FILTER(STRSTARTS(STR(?source), ".to_owned();
    push_quoted(&mut pattern, imap::mailbox_uri(account, mailbox).as_str());
    pattern.append("))");
    write_delete(graph, pattern.as_str())
}

/// The update that deletes the message with a UID.
pub fn delete_uid_update(account: &str, mailbox: &str, uid: u32, graph: &str) -> (update: String)
    ensures
        update@ == delete_source(imap::message_uri(account@, mailbox@, uid), graph@),
{
    delete_source_update(imap::uid_uri(account, mailbox, uid).as_str(), graph)
}

/// The update that deletes a message.
pub fn delete_message_update(message: &FetchedMessage, graph: &str) -> (update: String)
    ensures
        update@ == delete_source(
            imap::message_uri(message@.account, message@.mailbox, message@.uid),
            graph@,
        ),
{
    delete_source_update(message.source_uri().as_str(), graph)
}

/// The update that inserts what is said of a message. The graph of the options
/// does not matter here.
pub fn insert_message_update(message: &FetchedMessage, graph: &str, options: &RdfOptions) -> (update:
    String)
    ensures
        update@ == insert_message(
            message@,
            graph@,
            options.data_iri@,
            options.include_body,
        ),
{
    let triples = write_message(message, options, &None);
    let mut update = "INSERT DATA { GRAPH <".to_owned();
    update.append(graph);
    update.append("> {\n");
    update.append(triples.as_str());
    update.append("} } ;\n");
    update
}

} // verus!
