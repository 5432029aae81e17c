//! What holds of the RDF projection as a whole.

use vstd::prelude::*;
use vstd::utf8;

use crate::foundation;
use crate::headers;
use crate::imap;
use crate::rdf;
use crate::rdf::{Object, SafeSet, Statement};
use crate::text;

verus! {

// ---------------------------------------------------------------------------
// Literals

/// The character that a backslash and `c` stand for.
pub open spec fn unescaped_char(c: char) -> char {
    if c == 'n' {
        '\n'
    } else if c == 'r' {
        '\r'
    } else if c == 't' {
        '\t'
    } else {
        c
    }
}

/// The text that the inside of a literal stands for.
pub open spec fn unescaped(s: Seq<char>) -> Seq<char>
    decreases s.len(),
{
    if s.len() == 0 {
        seq![]
    } else if s[0] == '\\' && s.len() >= 2 {
        seq![unescaped_char(s[1])] + unescaped(s.skip(2))
    } else {
        seq![s[0]] + unescaped(s.skip(1))
    }
}

/// Where a literal ends whose opening quote stands just before `s`: at the
/// first quote that no backslash precedes.
pub open spec fn closing_quote(s: Seq<char>) -> int
    decreases s.len(),
{
    if s.len() == 0 || s[0] == '"' {
        0
    } else if s[0] == '\\' && s.len() >= 2 {
        2 + closing_quote(s.skip(2))
    } else {
        1 + closing_quote(s.skip(1))
    }
}

proof fn escaped_from_the_front(c: char, rest: Seq<char>)
    ensures
        rdf::escaped(seq![c] + rest) == rdf::escaped_char(c) + rdf::escaped(rest),
    decreases rest.len(),
{
    let s = seq![c] + rest;
    if rest.len() == 0 {
        assert(s.drop_last() == Seq::<char>::empty());
        assert(rdf::escaped(s.drop_last()) == Seq::<char>::empty());
        assert(s.last() == c);
        assert(rdf::escaped(s) =~= rdf::escaped_char(c) + rdf::escaped(rest));
    } else {
        escaped_from_the_front(c, rest.drop_last());
        assert(s.drop_last() == seq![c] + rest.drop_last());
        assert(s.last() == rest.last());
        assert(rdf::escaped(s) =~= rdf::escaped_char(c) + rdf::escaped(rest));
    }
}

/// A literal stands for the text that it was made of.
pub proof fn unescaping_undoes_escaping(s: Seq<char>)
    ensures
        unescaped(rdf::escaped(s)) == s,
    decreases s.len(),
{
    if s.len() > 0 {
        let rest = s.skip(1);
        assert(s == seq![s[0]] + rest);
        escaped_from_the_front(s[0], rest);
        unescaping_undoes_escaping(rest);
        let t = rdf::escaped(s);
        let head = rdf::escaped_char(s[0]);
        assert(t.skip(head.len() as int) == rdf::escaped(rest));
        assert(unescaped(t) =~= s);
    }
}

/// A literal ends with its own closing quote: whatever its text is, no quote in
/// it ends it before.
pub proof fn literal_ends_at_its_quote(value: Seq<char>, rest: Seq<char>)
    ensures
        closing_quote(rdf::escaped(value) + seq!['"'] + rest) == rdf::escaped(value).len(),
    decreases value.len(),
{
    if value.len() == 0 {
        assert((rdf::escaped(value) + seq!['"'] + rest)[0] == '"');
    } else {
        let tail = value.skip(1);
        assert(value == seq![value[0]] + tail);
        escaped_from_the_front(value[0], tail);
        literal_ends_at_its_quote(tail, rest);
        let t = rdf::escaped(value) + seq!['"'] + rest;
        let head = rdf::escaped_char(value[0]);
        assert(t.skip(head.len() as int) == rdf::escaped(tail) + seq!['"'] + rest);
        assert(t[0] == head[0]);
    }
}

/// The inside of a literal holds no end of a line and no tab.
pub proof fn escaped_is_one_line(s: Seq<char>)
    ensures
        !rdf::escaped(s).contains('\n'),
        !rdf::escaped(s).contains('\r'),
        !rdf::escaped(s).contains('\t'),
    decreases s.len(),
{
    if s.len() > 0 {
        escaped_is_one_line(s.drop_last());
        let t = rdf::escaped(s);
        let before = rdf::escaped(s.drop_last());
        assert forall|i: int| 0 <= i < t.len() implies t[i] != '\n' && t[i] != '\r'
            && t[i] != '\t' by {
            if i < before.len() {
                assert(t[i] == before[i]);
                assert(before.contains(before[i]));
            } else {
                assert(t[i] == rdf::escaped_char(s.last())[i - before.len()]);
            }
        }
    }
}

/// Texts can be escaped piece by piece.
pub proof fn escaping_distributes(a: Seq<char>, b: Seq<char>)
    ensures
        rdf::escaped(a + b) == rdf::escaped(a) + rdf::escaped(b),
    decreases b.len(),
{
    if b.len() == 0 {
        assert(a + b == a);
    } else {
        escaping_distributes(a, b.drop_last());
        assert((a + b).drop_last() == a + b.drop_last());
        assert(rdf::escaped(a + b) =~= rdf::escaped(a) + rdf::escaped(b));
    }
}

// ---------------------------------------------------------------------------
// Percent-encoding

/// Texts can be encoded piece by piece.
pub proof fn encoding_distributes(a: Seq<char>, b: Seq<char>, safe: SafeSet)
    ensures
        rdf::encoded(a + b, safe) == rdf::encoded(a, safe) + rdf::encoded(b, safe),
{
    utf8_distributes(a, b);
    encoded_bytes_distribute(utf8::encode_utf8(a), utf8::encode_utf8(b), safe);
}

proof fn utf8_distributes(a: Seq<char>, b: Seq<char>)
    ensures
        utf8::encode_utf8(a + b) == utf8::encode_utf8(a) + utf8::encode_utf8(b),
    decreases a.len(),
{
    if a.len() == 0 {
        assert(a + b == b);
        assert(utf8::encode_utf8(a) == Seq::<u8>::empty());
        assert(utf8::encode_utf8(a) + utf8::encode_utf8(b) =~= utf8::encode_utf8(b));
    } else {
        utf8_distributes(a.drop_first(), b);
        assert((a + b).drop_first() == a.drop_first() + b);
        assert(utf8::encode_utf8(a + b) =~= utf8::encode_utf8(a) + utf8::encode_utf8(b));
    }
}

/// Bytes can be encoded piece by piece.
pub proof fn encoded_bytes_distribute(a: Seq<u8>, b: Seq<u8>, safe: SafeSet)
    ensures
        rdf::encoded_bytes(a + b, safe) == rdf::encoded_bytes(a, safe) + rdf::encoded_bytes(
            b,
            safe,
        ),
    decreases b.len(),
{
    if b.len() == 0 {
        assert(a + b == a);
    } else {
        encoded_bytes_distribute(a, b.drop_last(), safe);
        assert((a + b).drop_last() == a + b.drop_last());
        assert(rdf::encoded_bytes(a + b, safe) =~= rdf::encoded_bytes(a, safe)
            + rdf::encoded_bytes(b, safe));
    }
}

/// Whether a character may stand in an encoded text.
pub open spec fn is_encoded_char(c: char, safe: SafeSet) -> bool {
    c == '%' || (c as u32) < 0x80 && rdf::is_safe(c as u8, safe)
}

/// Whether a character is an upper-case hexadecimal digit.
pub open spec fn is_hex_digit(c: char) -> bool {
    '0' <= c <= '9' || 'A' <= c <= 'F'
}

/// Every percent sign in an encoded text is followed by two upper-case
/// hexadecimal digits.
pub proof fn percent_signs_precede_digits(bytes: Seq<u8>, safe: SafeSet)
    ensures
        ({
            let e = rdf::encoded_bytes(bytes, safe);
            forall|i: int|
                0 <= i < e.len() && #[trigger] e[i] == '%' ==> i + 2 < e.len() && is_hex_digit(
                    e[i + 1],
                ) && is_hex_digit(e[i + 2])
        }),
    decreases bytes.len(),
{
    if bytes.len() > 0 {
        percent_signs_precede_digits(bytes.drop_last(), safe);
        let before = rdf::encoded_bytes(bytes.drop_last(), safe);
        let last = rdf::encoded_byte(bytes.last(), safe);
        let e = rdf::encoded_bytes(bytes, safe);
        assert forall|i: int| 0 <= i < e.len() && #[trigger] e[i] == '%' implies i + 2 < e.len()
            && is_hex_digit(e[i + 1]) && is_hex_digit(e[i + 2]) by {
            if i < before.len() {
                assert(e[i] == before[i]);
                assert(e[i + 1] == before[i + 1]);
                assert(e[i + 2] == before[i + 2]);
            } else {
                assert(e[i] == last[i - before.len()]);
                assert(i == before.len());
                assert(e[i + 1] == last[1]);
                assert(e[i + 2] == last[2]);
            }
        }
    }
}

/// A text of safe characters alone is its own encoding.
pub proof fn safe_text_is_unchanged(s: Seq<char>, safe: SafeSet)
    requires
        utf8::is_ascii_chars(s),
        forall|i: int| 0 <= i < s.len() ==> rdf::is_safe(#[trigger] s[i] as u8, safe),
    ensures
        rdf::encoded(s, safe) == s,
{
    utf8::is_ascii_chars_encode_utf8(s);
    let bytes = utf8::encode_utf8(s);
    assert forall|i: int| 0 <= i < bytes.len() implies (#[trigger] bytes[i]) as char == s[i]
        && rdf::is_safe(bytes[i], safe) by {
        assert(s[i] as u8 == bytes[i]);
    }
    safe_bytes_are_unchanged(bytes, s, safe);
}

proof fn safe_bytes_are_unchanged(bytes: Seq<u8>, s: Seq<char>, safe: SafeSet)
    requires
        bytes.len() == s.len(),
        forall|i: int|
            0 <= i < bytes.len() ==> (#[trigger] bytes[i]) as char == s[i] && rdf::is_safe(
                bytes[i],
                safe,
            ),
    ensures
        rdf::encoded_bytes(bytes, safe) == s,
    decreases bytes.len(),
{
    if bytes.len() > 0 {
        safe_bytes_are_unchanged(bytes.drop_last(), s.drop_last(), safe);
        assert(bytes[bytes.len() - 1] as char == s.last());
        assert(rdf::encoded_bytes(bytes, safe) =~= s);
    }
}

/// An encoded text consists of safe characters and percent signs alone.
pub proof fn encoded_is_safe(bytes: Seq<u8>, safe: SafeSet)
    ensures
        forall|i: int|
            0 <= i < rdf::encoded_bytes(bytes, safe).len() ==> is_encoded_char(
                #[trigger] rdf::encoded_bytes(bytes, safe)[i],
                safe,
            ),
    decreases bytes.len(),
{
    if bytes.len() > 0 {
        encoded_is_safe(bytes.drop_last(), safe);
        let before = rdf::encoded_bytes(bytes.drop_last(), safe);
        let last = rdf::encoded_byte(bytes.last(), safe);
        let t = rdf::encoded_bytes(bytes, safe);
        assert forall|i: int| 0 <= i < t.len() implies is_encoded_char(#[trigger] t[i], safe) by {
            if i < before.len() {
                assert(t[i] == before[i]);
            } else {
                assert(t[i] == last[i - before.len()]);
            }
        }
    }
}

/// The number that a hexadecimal digit stands for.
pub open spec fn hex_value(c: char) -> int {
    if '0' <= c <= '9' {
        c as u32 - 0x30
    } else {
        c as u32 - 0x41 + 10
    }
}

/// The bytes that an encoded text stands for.
pub open spec fn decoded(s: Seq<char>) -> Seq<u8>
    decreases s.len(),
{
    if s.len() == 0 {
        seq![]
    } else if s[0] == '%' && s.len() >= 3 {
        seq![(16 * hex_value(s[1]) + hex_value(s[2])) as u8] + decoded(s.skip(3))
    } else {
        seq![s[0] as u8] + decoded(s.skip(1))
    }
}

proof fn encoded_from_the_front(b: u8, rest: Seq<u8>, safe: SafeSet)
    ensures
        rdf::encoded_bytes(seq![b] + rest, safe) == rdf::encoded_byte(b, safe)
            + rdf::encoded_bytes(rest, safe),
    decreases rest.len(),
{
    let s = seq![b] + rest;
    if rest.len() == 0 {
        assert(s.drop_last() == Seq::<u8>::empty());
        assert(rdf::encoded_bytes(s.drop_last(), safe) == Seq::<char>::empty());
        assert(s.last() == b);
        assert(rdf::encoded_bytes(s, safe) =~= rdf::encoded_byte(b, safe) + rdf::encoded_bytes(
            rest,
            safe,
        ));
    } else {
        encoded_from_the_front(b, rest.drop_last(), safe);
        assert(s.drop_last() == seq![b] + rest.drop_last());
        assert(s.last() == rest.last());
        assert(rdf::encoded_bytes(s, safe) =~= rdf::encoded_byte(b, safe) + rdf::encoded_bytes(
            rest,
            safe,
        ));
    }
}

/// An encoded text stands for the bytes that it was made of.
pub proof fn decoding_undoes_encoding(bytes: Seq<u8>, safe: SafeSet)
    ensures
        decoded(rdf::encoded_bytes(bytes, safe)) == bytes,
    decreases bytes.len(),
{
    if bytes.len() > 0 {
        let b = bytes[0];
        let rest = bytes.skip(1);
        assert(bytes == seq![b] + rest);
        encoded_from_the_front(b, rest, safe);
        decoding_undoes_encoding(rest, safe);
        let head = rdf::encoded_byte(b, safe);
        let t = rdf::encoded_bytes(bytes, safe);
        assert(t.skip(head.len() as int) == rdf::encoded_bytes(rest, safe));
        if !rdf::is_safe(b, safe) {
            assert(t[1] == head[1] && t[2] == head[2]);
            assert(hex_value(rdf::hex_digit((b / 16) as u8)) == b / 16);
            assert(hex_value(rdf::hex_digit((b % 16) as u8)) == b % 16);
        }
        assert(decoded(t) =~= bytes);
    }
}

/// Different texts have different encodings.
pub proof fn encoding_is_injective(a: Seq<char>, b: Seq<char>, safe: SafeSet)
    requires
        rdf::encoded(a, safe) == rdf::encoded(b, safe),
    ensures
        a == b,
{
    decoding_undoes_encoding(utf8::encode_utf8(a), safe);
    decoding_undoes_encoding(utf8::encode_utf8(b), safe);
    utf8::encode_utf8_decode_utf8(a);
    utf8::encode_utf8_decode_utf8(b);
}

/// Messages with different identifiers have different IRIs, and none of those
/// is the IRI of a message without an identifier.
pub proof fn message_iris_are_distinct(
    base: Seq<char>,
    a: Seq<char>,
    b: Seq<char>,
    m: imap::MessageModel,
    n: imap::MessageModel,
)
    requires
        a.len() > 0,
        b.len() > 0,
    ensures
        rdf::message_iri(base, Some(a), m) == rdf::message_iri(base, Some(b), n) ==> a == b,
        rdf::message_iri(base, Some(a), m) != rdf::message_iri(base, None, n),
{
    reveal_strlit("msg/");
    reveal_strlit("msg/imap/");
    let x = rdf::message_iri(base, Some(a), m);
    let y = rdf::message_iri(base, Some(b), n);
    let prefix = base + "msg/"@;
    let ea = rdf::encoded(a, SafeSet::Unreserved);
    let eb = rdf::encoded(b, SafeSet::Unreserved);
    assert(x.skip(prefix.len() as int) == ea);
    assert(y.skip(prefix.len() as int) == eb);
    if x == y {
        encoding_is_injective(a, b, SafeSet::Unreserved);
    }
    let z = rdf::message_iri(base, None, n);
    if x == z {
        encoded_is_safe(utf8::encode_utf8(a), SafeSet::Unreserved);
        assert(z[base.len() as int + 8] == '/');
        assert(x[base.len() as int + 8] == ea[4]);
        assert(is_encoded_char(ea[4], SafeSet::Unreserved));
    }
}

// ---------------------------------------------------------------------------
// Subjects and base IRIs

/// Normalizing a normalized subject changes nothing: no reply mark and no
/// surrounding white space is left.
pub proof fn normalizing_is_idempotent(subject: Seq<char>)
    ensures
        rdf::normalized(rdf::normalized(subject)) == rdf::normalized(subject),
        text::trimmed(rdf::normalized(subject)) == rdf::normalized(subject),
        text::split_once(rdf::normalized(subject), ':') matches Some((word, _))
            ==> !rdf::is_reply_mark(word),
{
    text::trimming_is_idempotent(subject);
    marks_are_gone(text::trimmed(subject));
}

proof fn marks_are_gone(s: Seq<char>)
    requires
        text::trimmed(s) == s,
    ensures
        text::trimmed(rdf::without_reply_marks(s)) == rdf::without_reply_marks(s),
        rdf::without_reply_marks(rdf::without_reply_marks(s)) == rdf::without_reply_marks(s),
        text::split_once(rdf::without_reply_marks(s), ':') matches Some((word, _))
            ==> !rdf::is_reply_mark(word),
    decreases s.len(),
{
    if let Some((word, rest)) = text::split_once(s, ':') {
        if rdf::is_reply_mark(word) {
            text::first_of_is_first(s, ':');
            text::trimmed_is_no_longer(rest);
            text::trimming_is_idempotent(rest);
            marks_are_gone(text::trimmed(rest));
        }
    }
}

/// Whether a text is nothing but reply marks, each with its colon and the white
/// space behind it.
pub open spec fn only_reply_marks(s: Seq<char>) -> bool
    decreases s.len(),
{
    s.len() == 0 || match text::split_once(s, ':') {
        Some((word, rest)) => {
            proof {
                text::first_of_is_first(s, ':');
                text::trim_start_is_suffix(rest);
            }
            rdf::is_reply_mark(word) && only_reply_marks(text::trim_start(rest))
        },
        None => false,
    }
}

/// A normalized subject is what remains of the trimmed subject behind some
/// number of reply marks: nothing else is taken away.
pub proof fn only_reply_marks_are_removed(subject: Seq<char>)
    ensures
        ({
            let whole = text::trimmed(subject);
            let n = whole.len() - rdf::normalized(subject).len();
            &&& 0 <= n
            &&& rdf::normalized(subject) == whole.skip(n)
            &&& only_reply_marks(whole.take(n))
        }),
{
    text::trimming_is_idempotent(subject);
    marks_are_a_prefix(text::trimmed(subject));
}

proof fn marks_are_a_prefix(s: Seq<char>)
    requires
        text::trimmed(s) == s,
    ensures
        ({
            let n = s.len() - rdf::without_reply_marks(s).len();
            &&& 0 <= n
            &&& rdf::without_reply_marks(s) == s.skip(n)
            &&& only_reply_marks(s.take(n))
        }),
    decreases s.len(),
{
    text::first_of_is_first(s, ':');
    let colon = text::first_of(s, ':');
    let word = s.take(colon);
    let rest = s.skip(colon + 1);
    if colon < s.len() && rdf::is_reply_mark(word) {
        let next = text::trimmed(rest);
        text::trimmed_is_no_longer(rest);
        text::trimming_is_idempotent(rest);
        marks_are_a_prefix(next);
        // The text ends without white space, so the rest is trimmed at its
        // start alone.
        text::trim_start_is_suffix(s);
        text::trim_end_is_prefix(text::trim_start(s));
        text::trim_start_is_suffix(rest);
        let start = text::trim_start(rest);
        let blank = rest.len() - start.len();
        if start.len() > 0 {
            assert(start.last() == s.last());
        }
        assert(next == start);
        let k = next.len() - rdf::without_reply_marks(next).len();
        let n = colon + 1 + blank + k;
        assert(s.skip(n) =~= next.skip(k));
        let marks = s.take(n);
        assert(marks.take(colon) =~= word);
        assert(marks.skip(colon + 1) =~= rest.take(blank + k));
        first_of_prefix(s, ':', n);
        trim_start_of_prefix(rest, k);
        assert(text::trim_start(marks.skip(colon + 1)) == next.take(k));
    } else {
        assert(s.skip(0) == s);
        assert(s.take(0).len() == 0);
    }
}

proof fn first_of_prefix(s: Seq<char>, c: char, n: int)
    requires
        text::first_of(s, c) < n <= s.len(),
    ensures
        text::first_of(s.take(n), c) == text::first_of(s, c),
{
    text::first_of_is_first(s, c);
    text::first_of_is_first(s.take(n), c);
    let i = text::first_of(s, c);
    let j = text::first_of(s.take(n), c);
    assert(s.take(n)[i] == s[i]);
    if j < i {
        assert(s.take(n)[j] == s[j]);
    }
}

proof fn trim_start_of_prefix(s: Seq<char>, k: int)
    requires
        0 <= k <= text::trim_start(s).len(),
    ensures
        text::trim_start(s.take(s.len() - text::trim_start(s).len() + k)) == text::trim_start(
            s,
        ).take(k),
    decreases s.len(),
{
    text::trim_start_is_suffix(s);
    let n = s.len() - text::trim_start(s).len() + k;
    if s.len() > 0 && text::is_white_space(s[0]) {
        trim_start_of_prefix(s.drop_first(), k);
        text::trim_start_is_suffix(s.drop_first());
        assert(s.take(n).drop_first() == s.drop_first().take(n - 1));
    }
}

/// Slashes at the end of the data IRI do not matter: there is one in any case.
pub proof fn base_has_one_slash(data_iri: Seq<char>)
    ensures
        rdf::base_iri(data_iri).last() == '/',
        rdf::base_iri(data_iri.push('/')) == rdf::base_iri(data_iri),
        rdf::base_iri(rdf::base_iri(data_iri)) == rdf::base_iri(data_iri),
{
    reveal_strlit("/");
    assert(data_iri.push('/').drop_last() == data_iri);
    let t = text::trim_end_of(data_iri, '/');
    assert(rdf::base_iri(data_iri) == t.push('/'));
    assert(t.push('/').drop_last() == t);
    text::trim_end_of_is_prefix(data_iri, '/');
    assert(text::trim_end_of(t.push('/'), '/') == text::trim_end_of(t, '/'));
}

// ---------------------------------------------------------------------------
// Documents

/// Whether a text stays on one line.
pub open spec fn one_line(s: Seq<char>) -> bool {
    forall|i: int| 0 <= i < s.len() ==> #[trigger] s[i] != '\n'
}

/// Whether the IRIs of a statement stay on one line.
pub open spec fn plain_iris(st: Statement) -> bool {
    &&& one_line(st.subject)
    &&& one_line(st.predicate)
    &&& match st.object {
        Object::Iri(iri) => one_line(iri),
        Object::Literal { datatype, .. } => datatype matches Some(kind) ==> one_line(kind),
    }
}

/// Whether the IRIs of all statements stay on one line.
pub open spec fn all_plain(statements: Seq<Statement>) -> bool {
    forall|i: int| 0 <= i < statements.len() ==> plain_iris(#[trigger] statements[i])
}

proof fn one_line_of_both(a: Seq<char>, b: Seq<char>)
    requires
        one_line(a),
        one_line(b),
    ensures
        one_line(a + b),
{
    assert forall|i: int| 0 <= i < (a + b).len() implies #[trigger] (a + b)[i] != '\n' by {
        if i < a.len() {
            assert((a + b)[i] == a[i]);
        } else {
            assert((a + b)[i] == b[i - a.len()]);
        }
    }
}

proof fn quoted_is_one_line(value: Seq<char>)
    ensures
        one_line(rdf::quoted(value)),
{
    reveal_strlit("\"");
    escaped_is_one_line(value);
    let e = rdf::escaped(value);
    assert forall|i: int| 0 <= i < e.len() implies #[trigger] e[i] != '\n' by {
        assert(e.contains(e[i]));
    }
    one_line_of_both("\""@, e);
    one_line_of_both("\""@ + e, "\""@);
}

/// A statement stays on one line, whatever texts it holds, and ends with a
/// full stop.
pub proof fn statement_is_one_line(st: Statement, graph: Option<Seq<char>>)
    requires
        plain_iris(st),
        graph matches Some(g) ==> one_line(g),
    ensures
        one_line(rdf::statement_text(st, graph)),
        rdf::statement_text(st, graph).last() == '.',
{
    reveal_strlit("<");
    reveal_strlit(">");
    reveal_strlit("> <");
    reveal_strlit("> ");
    reveal_strlit("^^<");
    reveal_strlit(" <");
    reveal_strlit("> .");
    reveal_strlit(" .");
    let object = rdf::object_term(st.object);
    match st.object {
        Object::Iri(iri) => {
            one_line_of_both("<"@, iri);
            one_line_of_both("<"@ + iri, ">"@);
        },
        Object::Literal { value, datatype } => {
            quoted_is_one_line(value);
            if let Some(kind) = datatype {
                one_line_of_both(rdf::quoted(value), "^^<"@);
                one_line_of_both(rdf::quoted(value) + "^^<"@, kind);
                one_line_of_both(rdf::quoted(value) + "^^<"@ + kind, ">"@);
            }
        },
    }
    one_line_of_both("<"@, st.subject);
    one_line_of_both("<"@ + st.subject, "> <"@);
    one_line_of_both("<"@ + st.subject + "> <"@, st.predicate);
    one_line_of_both("<"@ + st.subject + "> <"@ + st.predicate, "> "@);
    let start = "<"@ + st.subject + "> <"@ + st.predicate + "> "@;
    one_line_of_both(start, object);
    let triple = start + object;
    match graph {
        Some(g) => {
            one_line_of_both(triple, " <"@);
            one_line_of_both(triple + " <"@, g);
            one_line_of_both(triple + " <"@ + g, "> ."@);
        },
        None => {
            one_line_of_both(triple, " ."@);
        },
    }
}

proof fn lines_of_both(a: Seq<Statement>, graph: Option<Seq<char>>, rest: Seq<char>)
    requires
        all_plain(a),
        graph matches Some(g) ==> one_line(g),
    ensures
        text::lines(rdf::document(a, graph) + rest) == Seq::new(
            a.len(),
            |i: int| rdf::statement_text(a[i], graph),
        ) + text::lines(rest),
    decreases a.len(),
{
    reveal_strlit("\n");
    if a.len() == 0 {
        assert(rdf::document(a, graph) + rest == rest);
        assert(Seq::new(a.len(), |i: int| rdf::statement_text(a[i], graph)) + text::lines(rest)
            =~= text::lines(rest));
    } else {
        let before = a.drop_last();
        let line = rdf::statement_text(a.last(), graph);
        assert forall|i: int| 0 <= i < before.len() implies plain_iris(#[trigger] before[i]) by {
            assert(before[i] == a[i]);
        }
        assert(plain_iris(a[a.len() - 1]));
        statement_is_one_line(a.last(), graph);
        lines_of_both(before, graph, line.push('\n') + rest);
        if line.contains('\n') {
            assert(line[line.index_of('\n')] == '\n');
        }
        text::lines_of_line_and_rest(line, rest);
        assert(rdf::document(a, graph) + rest =~= rdf::document(before, graph) + (line.push('\n')
            + rest));
        assert(Seq::new(a.len(), |i: int| rdf::statement_text(a[i], graph)) + text::lines(rest)
            =~= Seq::new(before.len(), |i: int| rdf::statement_text(before[i], graph)) + (
        seq![line] + text::lines(rest)));
    }
}

/// The lines of a document are its statements, one on each.
pub proof fn one_statement_per_line(statements: Seq<Statement>, graph: Option<Seq<char>>)
    requires
        all_plain(statements),
        graph matches Some(g) ==> one_line(g),
    ensures
        text::lines(rdf::document(statements, graph)) == Seq::new(
            statements.len(),
            |i: int| rdf::statement_text(statements[i], graph),
        ),
{
    let empty = Seq::<char>::empty();
    lines_of_both(statements, graph, empty);
    assert(rdf::document(statements, graph) + empty == rdf::document(statements, graph));
    assert(text::lines(empty) == Seq::<Seq<char>>::empty());
    assert(text::lines(rdf::document(statements, graph)) =~= Seq::new(
        statements.len(),
        |i: int| rdf::statement_text(statements[i], graph),
    ));
}

proof fn all_plain_of_both(a: Seq<Statement>, b: Seq<Statement>)
    requires
        all_plain(a),
        all_plain(b),
    ensures
        all_plain(a + b),
{
    assert forall|i: int| 0 <= i < (a + b).len() implies plain_iris(#[trigger] (a + b)[i]) by {
        if i < a.len() {
            assert((a + b)[i] == a[i]);
        } else {
            assert((a + b)[i] == b[i - a.len()]);
        }
    }
}

proof fn encoded_is_one_line(s: Seq<char>, safe: SafeSet)
    ensures
        one_line(rdf::encoded(s, safe)),
{
    let e = rdf::encoded(s, safe);
    encoded_is_safe(utf8::encode_utf8(s), safe);
    assert forall|i: int| 0 <= i < e.len() implies #[trigger] e[i] != '\n' by {
        assert(is_encoded_char(e[i], safe));
    }
}

proof fn mail_is_one_line(name: Seq<char>)
    requires
        one_line(name),
    ensures
        one_line(rdf::mail(name)),
{
    reveal_strlit("https://mail.described.at/");
    one_line_of_both(rdf::MAIL@, name);
}

proof fn schema_is_one_line(name: Seq<char>)
    requires
        one_line(name),
    ensures
        one_line(rdf::schema(name)),
{
    reveal_strlit("http://schema.org/");
    one_line_of_both(rdf::SCHEMA@, name);
}

proof fn types_are_one_line()
    ensures
        one_line(rdf::RDF_TYPE@),
        one_line(rdf::XSD_INTEGER@),
{
    reveal_strlit("http://www.w3.org/1999/02/22-rdf-syntax-ns#type");
    reveal_strlit("http://www.w3.org/2001/XMLSchema#integer");
}

proof fn message_iri_is_one_line(
    base: Seq<char>,
    id: Option<Seq<char>>,
    message: imap::MessageModel,
)
    requires
        one_line(base),
    ensures
        one_line(rdf::message_iri(base, id, message)),
{
    reveal_strlit("msg/");
    reveal_strlit("msg/imap/");
    reveal_strlit("/");
    if id is Some && id->0.len() > 0 {
        let e = rdf::encoded(id->0, SafeSet::Unreserved);
        encoded_is_one_line(id->0, SafeSet::Unreserved);
        one_line_of_both(base, "msg/"@);
        one_line_of_both(base + "msg/"@, e);
    } else {
        let e = rdf::encoded(message.account, SafeSet::Unreserved);
        let d = text::decimal(message.uid as nat);
        encoded_is_one_line(message.account, SafeSet::Unreserved);
        text::decimal_is_digits(message.uid as nat);
        one_line_of_both(base, "msg/imap/"@);
        one_line_of_both(base + "msg/imap/"@, e);
        one_line_of_both(base + "msg/imap/"@ + e, "/"@);
        assert(one_line(d));
        one_line_of_both(base + "msg/imap/"@ + e + "/"@, d);
    }
}

proof fn base_statements_are_plain(
    iri: Seq<char>,
    folder: Seq<char>,
    message: imap::MessageModel,
)
    requires
        one_line(iri),
        one_line(folder),
    ensures
        all_plain(rdf::base_statements(iri, folder, message)),
{
    reveal_strlit("Message");
    reveal_strlit("CreativeWork");
    reveal_strlit("folder");
    reveal_strlit("Mailbox");
    reveal_strlit("sourcePath");
    reveal_strlit("size");
    mail_is_one_line("Message"@);
    schema_is_one_line("CreativeWork"@);
    mail_is_one_line("folder"@);
    mail_is_one_line("Mailbox"@);
    mail_is_one_line("sourcePath"@);
    mail_is_one_line("size"@);
    types_are_one_line();
}

proof fn id_statements_are_plain(iri: Seq<char>, id: Option<Seq<char>>)
    requires
        one_line(iri),
    ensures
        all_plain(rdf::id_statements(iri, id)),
{
    reveal_strlit("messageId");
    reveal_strlit("mid");
    reveal_strlit("mid:");
    mail_is_one_line("messageId"@);
    mail_is_one_line("mid"@);
    if let Some(id) = id {
        encoded_is_one_line(id, SafeSet::MessageId);
        one_line_of_both("mid:"@, rdf::encoded(id, SafeSet::MessageId));
    }
}

proof fn subject_statements_are_plain(iri: Seq<char>, subject: Option<Seq<char>>)
    requires
        one_line(iri),
    ensures
        all_plain(rdf::subject_statements(iri, subject)),
{
    reveal_strlit("subject");
    reveal_strlit("normalizedSubject");
    mail_is_one_line("subject"@);
    mail_is_one_line("normalizedSubject"@);
}

proof fn text_statements_are_plain(
    iri: Seq<char>,
    predicate: Seq<char>,
    value: Option<Seq<char>>,
)
    requires
        one_line(iri),
        one_line(predicate),
    ensures
        all_plain(rdf::text_statements(iri, predicate, value)),
{
    mail_is_one_line(predicate);
}

proof fn address_statements_are_plain(
    iri: Seq<char>,
    predicate: Seq<char>,
    address: Seq<char>,
    lower: Seq<char>,
    domain: Option<Seq<char>>,
)
    requires
        one_line(iri),
        one_line(predicate),
    ensures
        all_plain(rdf::address_statements(iri, predicate, address, lower, domain)),
{
    reveal_strlit("Account");
    reveal_strlit("email");
    reveal_strlit("domain");
    reveal_strlit("mailto:");
    mail_is_one_line(predicate);
    mail_is_one_line("Account"@);
    schema_is_one_line("email"@);
    mail_is_one_line("domain"@);
    types_are_one_line();
    encoded_is_one_line(lower, SafeSet::Unreserved);
    one_line_of_both("mailto:"@, rdf::encoded(lower, SafeSet::Unreserved));
}

proof fn all_address_statements_are_plain(
    iri: Seq<char>,
    predicate: Seq<char>,
    addresses: Seq<Seq<char>>,
)
    requires
        one_line(iri),
        one_line(predicate),
    ensures
        all_plain(rdf::all_address_statements(iri, predicate, addresses)),
    decreases addresses.len(),
{
    if addresses.len() > 0 {
        let address = addresses.last();
        let lower = foundation::lowercase(address);
        all_address_statements_are_plain(iri, predicate, addresses.drop_last());
        address_statements_are_plain(iri, predicate, address, lower, rdf::domain_of(address));
        all_plain_of_both(
            rdf::all_address_statements(iri, predicate, addresses.drop_last()),
            rdf::address_statements(iri, predicate, address, lower, rdf::domain_of(address)),
        );
    }
}

proof fn people_statements_are_plain(
    iri: Seq<char>,
    predicate: Seq<char>,
    value: Option<Seq<char>>,
)
    requires
        one_line(iri),
        one_line(predicate),
    ensures
        all_plain(rdf::people_statements(iri, predicate, value)),
{
    if let Some(value) = value {
        all_address_statements_are_plain(iri, predicate, rdf::address_list(value));
    }
}

/// Whatever a message holds, its IRIs stay on one line if the data IRI does.
pub proof fn projection_is_plain(
    message: imap::MessageModel,
    parts: headers::HeadersModel,
    base: Seq<char>,
    include_body: bool,
)
    requires
        one_line(base),
    ensures
        all_plain(rdf::projection(message, parts, base, include_body)),
{
    reveal_strlit("folder/");
    reveal_strlit("from");
    reveal_strlit("to");
    reveal_strlit("cc");
    reveal_strlit("bcc");
    reveal_strlit("replyTo");
    reveal_strlit("userAgent");
    reveal_strlit("bodyText");
    let e = parts.entries;
    let id = headers::lookup(e, "message-id"@);
    let iri = rdf::message_iri(base, id, message);
    let folder = rdf::folder_iri(base, message.mailbox);
    let agent = match headers::lookup(e, "user-agent"@) {
        Some(agent) => Some(agent),
        None => headers::lookup(e, "x-mailer"@),
    };
    let body = if include_body {
        headers::text_of_body(parts.body)
    } else {
        None
    };
    message_iri_is_one_line(base, id, message);
    encoded_is_one_line(message.mailbox, SafeSet::Unreserved);
    one_line_of_both(base, "folder/"@);
    one_line_of_both(
        base + "folder/"@,
        rdf::encoded(message.mailbox, SafeSet::Unreserved),
    );
    let s1 = rdf::base_statements(iri, folder, message);
    base_statements_are_plain(iri, folder, message);
    let p2 = rdf::id_statements(iri, id);
    id_statements_are_plain(iri, id);
    all_plain_of_both(s1, p2);
    let p3 = rdf::subject_statements(iri, headers::lookup(e, "subject"@));
    subject_statements_are_plain(iri, headers::lookup(e, "subject"@));
    all_plain_of_both(s1 + p2, p3);
    let p4 = rdf::people_statements(iri, "from"@, headers::lookup(e, "from"@));
    people_statements_are_plain(iri, "from"@, headers::lookup(e, "from"@));
    all_plain_of_both(s1 + p2 + p3, p4);
    let p5 = rdf::people_statements(iri, "to"@, headers::lookup(e, "to"@));
    people_statements_are_plain(iri, "to"@, headers::lookup(e, "to"@));
    all_plain_of_both(s1 + p2 + p3 + p4, p5);
    let p6 = rdf::people_statements(iri, "cc"@, headers::lookup(e, "cc"@));
    people_statements_are_plain(iri, "cc"@, headers::lookup(e, "cc"@));
    all_plain_of_both(s1 + p2 + p3 + p4 + p5, p6);
    let p7 = rdf::people_statements(iri, "bcc"@, headers::lookup(e, "bcc"@));
    people_statements_are_plain(iri, "bcc"@, headers::lookup(e, "bcc"@));
    all_plain_of_both(s1 + p2 + p3 + p4 + p5 + p6, p7);
    let p8 = rdf::people_statements(iri, "replyTo"@, headers::lookup(e, "reply-to"@));
    people_statements_are_plain(iri, "replyTo"@, headers::lookup(e, "reply-to"@));
    all_plain_of_both(s1 + p2 + p3 + p4 + p5 + p6 + p7, p8);
    let p9 = rdf::text_statements(iri, "userAgent"@, agent);
    text_statements_are_plain(iri, "userAgent"@, agent);
    all_plain_of_both(s1 + p2 + p3 + p4 + p5 + p6 + p7 + p8, p9);
    let p10 = rdf::text_statements(iri, "bodyText"@, body);
    text_statements_are_plain(iri, "bodyText"@, body);
    all_plain_of_both(s1 + p2 + p3 + p4 + p5 + p6 + p7 + p8 + p9, p10);
}

/// The RDF of a message has one statement on each line, whatever the message
/// holds: its subject, its addresses, its identifier and its body cannot break
/// a line or start another statement.
pub proof fn message_is_one_statement_per_line(
    message: imap::MessageModel,
    data_iri: Seq<char>,
    include_body: bool,
    graph: Option<Seq<char>>,
)
    requires
        one_line(data_iri),
        graph matches Some(g) ==> one_line(g),
    ensures
        ({
            let statements = rdf::message_statements(message, data_iri, include_body);
            text::lines(rdf::document(statements, graph)) == Seq::new(
                statements.len(),
                |i: int| rdf::statement_text(statements[i], graph),
            )
        }),
{
    reveal_strlit("/");
    let t = text::trim_end_of(data_iri, '/');
    text::trim_end_of_is_prefix(data_iri, '/');
    assert(one_line(t)) by {
        assert forall|i: int| 0 <= i < t.len() implies #[trigger] t[i] != '\n' by {
            assert(t[i] == data_iri[i]);
        }
    }
    one_line_of_both(t, "/"@);
    projection_is_plain(
        message,
        headers::parsed(message.rfc822),
        rdf::base_iri(data_iri),
        include_body,
    );
    one_statement_per_line(rdf::message_statements(message, data_iri, include_body), graph);
}

/// The body of a message is not in its RDF unless that was asked for: without
/// it, messages of the same size that begin with the same bytes, up to and
/// including the first empty line with carriage returns, have the same RDF.
pub proof fn body_is_left_out(
    a: imap::MessageModel,
    b: imap::MessageModel,
    data_iri: Seq<char>,
)
    requires
        ({
            let empty_line = seq![13u8, 10u8, 13u8, 10u8];
            let end = headers::position_of(a.rfc822, empty_line);
            &&& end < a.rfc822.len()
            &&& a.rfc822.take(end + 4) == b.rfc822.take(end + 4)
        }),
        a.rfc822.len() == b.rfc822.len(),
        a.uid == b.uid,
        a.account == b.account,
        a.mailbox == b.mailbox,
    ensures
        rdf::message_statements(a, data_iri, false) == rdf::message_statements(b, data_iri, false),
{
    let empty_line = seq![13u8, 10u8, 13u8, 10u8];
    let end = headers::position_of(a.rfc822, empty_line);
    headers::position_is_occurrence(a.rfc822, empty_line);
    headers::position_depends_on_beginning(a.rfc822, b.rfc822, empty_line, end + 4);
    assert(a.rfc822.take(end) == a.rfc822.take(end + 4).take(end));
    assert(b.rfc822.take(end) == b.rfc822.take(end + 4).take(end));
}

/// Every address that is found in an address list has a domain.
pub proof fn every_address_has_a_domain(value: Seq<char>)
    ensures
        forall|i: int|
            0 <= i < rdf::address_list(value).len() ==> rdf::domain_of(
                #[trigger] rdf::address_list(value)[i],
            ) is Some,
{
    let found = rdf::address_list(value);
    found_addresses_hold_at(text::split_at_each(value, ','));
    assert forall|i: int| 0 <= i < found.len() implies rdf::domain_of(
        #[trigger] found[i],
    ) is Some by {
        text::last_of_is_last(found[i], '@');
    }
}

proof fn found_addresses_hold_at(parts: Seq<Seq<char>>)
    ensures
        forall|i: int|
            0 <= i < rdf::addresses_in(parts).len() ==> (
            #[trigger] rdf::addresses_in(parts)[i]).contains('@'),
    decreases parts.len(),
{
    if parts.len() > 0 {
        let before = rdf::addresses_in(parts.drop_last());
        let found = rdf::addresses_in(parts);
        found_addresses_hold_at(parts.drop_last());
        assert forall|i: int| 0 <= i < found.len() implies (#[trigger] found[i]).contains('@') by {
            if i < before.len() {
                assert(found[i] == before[i]);
            }
        }
    }
}

/// A line of N-Triples with a graph put in before the full stop.
pub open spec fn with_graph(line: Seq<char>, graph: Seq<char>) -> Seq<char> {
    line.drop_last() + "<"@ + graph + "> ."@
}

/// A quad is the triple with the graph put in.
pub proof fn quad_is_triple_with_graph(st: Statement, graph: Seq<char>)
    ensures
        rdf::statement_text(st, Some(graph)) == with_graph(rdf::statement_text(st, None), graph),
{
    reveal_strlit(" .");
    reveal_strlit(" <");
    reveal_strlit("<");
    assert(rdf::statement_text(st, Some(graph)) =~= with_graph(
        rdf::statement_text(st, None),
        graph,
    ));
}

/// The N-Quads of a message are its N-Triples, line by line, with the graph put
/// in.
pub proof fn quads_are_triples_with_graph(
    message: imap::MessageModel,
    data_iri: Seq<char>,
    include_body: bool,
    graph: Seq<char>,
)
    requires
        one_line(data_iri),
        one_line(graph),
    ensures
        ({
            let statements = rdf::message_statements(message, data_iri, include_body);
            let triples = text::lines(rdf::document(statements, None));
            text::lines(rdf::document(statements, Some(graph))) == Seq::new(
                triples.len(),
                |i: int| with_graph(triples[i], graph),
            )
        }),
{
    let statements = rdf::message_statements(message, data_iri, include_body);
    let triples = text::lines(rdf::document(statements, None));
    let quads = text::lines(rdf::document(statements, Some(graph)));
    message_is_one_statement_per_line(message, data_iri, include_body, None);
    message_is_one_statement_per_line(message, data_iri, include_body, Some(graph));
    assert forall|i: int| 0 <= i < triples.len() implies quads[i] == with_graph(
        #[trigger] triples[i],
        graph,
    ) by {
        quad_is_triple_with_graph(statements[i], graph);
    }
    assert(quads =~= Seq::new(triples.len(), |i: int| with_graph(triples[i], graph)));
}

} // verus!
