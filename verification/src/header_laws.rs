//! What taking a message apart is for.

use vstd::prelude::*;
use vstd::utf8;

use crate::foundation;
use crate::headers;
use crate::text;
use crate::text_laws;

verus! {

/// Whether a pattern stands at a position.
pub open spec fn stands_at(data: Seq<u8>, pattern: Seq<u8>, i: int) -> bool {
    0 <= i && i + pattern.len() <= data.len() && data.subrange(i, i + pattern.len()) == pattern
}

/// The position of a pattern is the first at which it stands, or the length of
/// the data if it stands nowhere.
pub proof fn position_is_the_first(data: Seq<u8>, pattern: Seq<u8>)
    requires
        pattern.len() > 0,
    ensures
        ({
            let p = headers::position_of(data, pattern);
            &&& 0 <= p <= data.len()
            &&& p < data.len() ==> stands_at(data, pattern, p)
            &&& forall|i: int| 0 <= i < p ==> !#[trigger] stands_at(data, pattern, i)
            &&& p == data.len() ==> forall|i: int| !#[trigger] stands_at(data, pattern, i)
        }),
    decreases data.len(),
{
    headers::position_is_occurrence(data, pattern);
    let p = headers::position_of(data, pattern);
    let m = pattern.len() as int;
    assert forall|i: int| 0 <= i < p implies !#[trigger] stands_at(data, pattern, i) by {
        if stands_at(data, pattern, i) {
            if i == 0 {
                assert(data.subrange(0, m) =~= data.take(m));
            } else {
                let rest = data.drop_first();
                position_is_the_first(rest, pattern);
                assert(rest.subrange(i - 1, i - 1 + m) =~= data.subrange(i, i + m));
                assert(stands_at(rest, pattern, i - 1));
            }
        }
    }
}

/// The empty line that ends the header section is the first one with carriage
/// returns; if there is none, the first one without; and if there is none either,
/// the header section is the whole message.
pub proof fn header_section_ends_at_the_empty_line(raw: Seq<u8>)
    ensures
        ({
            let crlf = seq![13u8, 10u8, 13u8, 10u8];
            let lf = seq![10u8, 10u8];
            let (end, gap) = headers::header_end(raw);
            if exists|i: int| stands_at(raw, crlf, i) {
                &&& gap == 4
                &&& stands_at(raw, crlf, end)
                &&& forall|i: int| 0 <= i < end ==> !#[trigger] stands_at(raw, crlf, i)
            } else if exists|i: int| stands_at(raw, lf, i) {
                &&& gap == 2
                &&& stands_at(raw, lf, end)
                &&& forall|i: int| 0 <= i < end ==> !#[trigger] stands_at(raw, lf, i)
            } else {
                gap == 0 && end == raw.len()
            }
        }),
{
    let crlf = seq![13u8, 10u8, 13u8, 10u8];
    let lf = seq![10u8, 10u8];
    position_is_the_first(raw, crlf);
    position_is_the_first(raw, lf);
}

/// A line with a colon adds a field: what stands before the first colon, in lower
/// case, with what stands after it, trimmed. A line that begins with a space or a
/// tab is appended, trimmed, to the value before it. Any other line adds nothing.
pub proof fn lines_become_fields(
    lines: Seq<Seq<char>>,
    name: Seq<char>,
    value: Seq<char>,
    folded: Seq<char>,
    other: Seq<char>,
)
    requires
        !name.contains(':'),
        name.len() > 0 ==> name[0] != ' ' && name[0] != '\t',
        folded.len() > 0 && (folded[0] == ' ' || folded[0] == '\t'),
        !other.contains(':'),
        other.len() > 0 ==> other[0] != ' ' && other[0] != '\t',
    ensures
        headers::fields(Seq::<Seq<char>>::empty()).len() == 0,
        headers::fields(lines.push(name.push(':') + value)) == headers::fields(lines).push(
            (text::ascii_lowercase(name), text::trimmed(value)),
        ),
        headers::fields(lines.push(other)) == headers::fields(lines),
        ({
            let before = headers::fields(lines);
            let after = headers::fields(lines.push(folded));
            &&& after.len() == before.len()
            &&& forall|i: int| 0 <= i < before.len() - 1 ==> #[trigger] after[i] == before[i]
            &&& before.len() > 0 ==> after.last().0 == before.last().0 && after.last().1
                == before.last().1 + seq![' '] + text::trimmed(folded)
        }),
{
    let line = name.push(':') + value;
    text_laws::splitting_undoes_joining(name, ':', value);
    assert(lines.push(line).drop_last() =~= lines);
    if name.len() > 0 {
        assert(line[0] == name[0]);
    } else {
        assert(line[0] == ':');
    }
    text_laws::splitting_undoes_joining(other, ':', value);
    assert(lines.push(other).drop_last() =~= lines);
    assert(lines.push(folded).drop_last() =~= lines);
    let before = headers::fields(lines);
    if before.len() > 0 {
        assert(headers::fields(lines.push(folded)).last().1 =~= before.last().1 + seq![' ']
            + text::trimmed(folded));
    }
}

/// Looking up a name gives the value of the first field with that name, and
/// nothing exactly if no field has it.
pub proof fn lookup_gives_the_first(entries: Seq<(Seq<char>, Seq<char>)>, name: Seq<char>)
    ensures
        match headers::lookup(entries, name) {
            Some(value) => exists|i: int|
                0 <= i < entries.len() && #[trigger] entries[i] == (name, value) && forall|j: int|
                    0 <= j < i ==> (#[trigger] entries[j]).0 != name,
            None => forall|i: int| 0 <= i < entries.len() ==> (#[trigger] entries[i]).0 != name,
        },
    decreases entries.len(),
{
    if entries.len() > 0 {
        if entries[0].0 == name {
            assert(entries[0] == (name, entries[0].1));
        } else {
            let rest = entries.drop_first();
            lookup_gives_the_first(rest, name);
            match headers::lookup(entries, name) {
                Some(value) => {
                    let i = choose|i: int|
                        0 <= i < rest.len() && #[trigger] rest[i] == (name, value) && forall|j: int|
                            0 <= j < i ==> (#[trigger] rest[j]).0 != name;
                    assert(entries[i + 1] == (name, value));
                    assert forall|j: int| 0 <= j < i + 1 implies (#[trigger] entries[j]).0
                        != name by {
                        if j > 0 {
                            assert(rest[j - 1] == entries[j]);
                        }
                    }
                },
                None => {
                    assert forall|i: int| 0 <= i < entries.len() implies (#[trigger] entries[i]).0
                        != name by {
                        if i > 0 {
                            assert(rest[i - 1] == entries[i]);
                        }
                    }
                },
            }
        }
    }
}

/// A message that is put together of a header section, an empty line and a body
/// is taken apart into the section's fields and that body.
pub proof fn taking_apart_undoes_putting_together(section: Seq<char>, body: Seq<u8>)
    requires
        ({
            let crlf = seq![13u8, 10u8, 13u8, 10u8];
            forall|i: int|
                0 <= i < utf8::encode_utf8(section).len() ==> !#[trigger] stands_at(
                    utf8::encode_utf8(section) + crlf,
                    crlf,
                    i,
                )
        }),
    ensures
        ({
            let raw = utf8::encode_utf8(section) + seq![13u8, 10u8, 13u8, 10u8] + body;
            &&& headers::parsed(raw).entries == headers::fields(text::lines(section))
            &&& headers::parsed(raw).body == body
        }),
{
    broadcast use {utf8::encode_utf8_valid_utf8, utf8::encode_utf8_decode_utf8};

    let crlf = seq![13u8, 10u8, 13u8, 10u8];
    let head = utf8::encode_utf8(section);
    let raw = head + crlf + body;
    let n = head.len() as int;
    position_is_the_first(raw, crlf);
    assert(raw.subrange(n, n + 4) =~= crlf);
    assert(stands_at(raw, crlf, n));
    let p = headers::position_of(raw, crlf);
    if p < n {
        assert(raw.subrange(p, p + 4) =~= (head + crlf).subrange(p, p + 4));
        assert(stands_at(head + crlf, crlf, p));
    }
    assert(p == n);
    assert(raw.take(n) =~= head);
    assert(raw.skip(n + 4) =~= body);
}

/// A message without an empty line is all header section, and has no body.
pub proof fn message_without_empty_line_is_all_headers(raw: Seq<u8>)
    requires
        ({
            let crlf = seq![13u8, 10u8, 13u8, 10u8];
            let lf = seq![10u8, 10u8];
            &&& forall|i: int| !#[trigger] stands_at(raw, crlf, i)
            &&& forall|i: int| !#[trigger] stands_at(raw, lf, i)
        }),
    ensures
        headers::parsed(raw).body.len() == 0,
        headers::parsed(raw).entries == headers::fields(text::lines(foundation::decoded(raw))),
{
    header_section_ends_at_the_empty_line(raw);
    assert(raw.take(raw.len() as int) =~= raw);
}

/// The fields and the body are those on either side of the empty line.
pub proof fn parts_lie_on_either_side(raw: Seq<u8>)
    ensures
        ({
            let (end, gap) = headers::header_end(raw);
            &&& headers::parsed(raw).entries == headers::fields(
                text::lines(foundation::decoded(raw.take(end))),
            )
            &&& raw == raw.take(end) + raw.subrange(end, end + gap) + headers::parsed(raw).body
        }),
{
    header_section_ends_at_the_empty_line(raw);
    let (end, gap) = headers::header_end(raw);
    assert(raw =~= raw.take(end) + raw.subrange(end, end + gap) + headers::parsed(raw).body);
}

/// The text of a body is the text that the body encodes; an empty body and one
/// that is not UTF-8 have none.
pub proof fn body_text_is_what_the_body_encodes(t: Seq<char>, body: Seq<u8>)
    ensures
        t.len() > 0 ==> headers::text_of_body(utf8::encode_utf8(t)) == Some(t),
        headers::text_of_body(Seq::<u8>::empty()) is None,
        !utf8::valid_utf8(body) ==> headers::text_of_body(body) is None,
{
    broadcast use {utf8::encode_utf8_valid_utf8, utf8::encode_utf8_decode_utf8};

    if t.len() > 0 && utf8::encode_utf8(t).len() == 0 {
        assert(utf8::encode_utf8(t) =~= utf8::encode_utf8(Seq::<char>::empty()));
        assert(utf8::decode_utf8(utf8::encode_utf8(Seq::<char>::empty())).len() == 0);
    }
}

/// Bytes that encode a text decode to it, and ASCII text has its letters in lower
/// case and nothing else changed.
pub proof fn decoding_and_lower_case_on_plain_text(t: Seq<char>)
    ensures
        foundation::decoded(utf8::encode_utf8(t)) == t,
        utf8::is_ascii_chars(t) ==> foundation::lowercase(t) == text::ascii_lowercase(t),
{
    broadcast use {utf8::encode_utf8_valid_utf8, utf8::encode_utf8_decode_utf8};

}

/// Text that is not plain takes the named results of the standard library, and
/// quoting puts plain text between two double quotes.
pub proof fn other_text_takes_the_named_results(bytes: Seq<u8>, t: Seq<char>)
    ensures
        !utf8::valid_utf8(bytes) ==> foundation::decoded(bytes) == foundation::utf8_lossy(bytes),
        !utf8::is_ascii_chars(t) ==> foundation::lowercase(t) == foundation::unicode_lowercase(t),
        (forall|i: int|
            0 <= i < t.len() ==> ' ' <= #[trigger] t[i] <= '~' && t[i] != '"' && t[i] != '\\')
            ==> foundation::quoted(t) == seq!['"'] + t + seq!['"'],
        (exists|i: int|
            0 <= i < t.len() && !(' ' <= #[trigger] t[i] <= '~' && t[i] != '"' && t[i] != '\\'))
            ==> foundation::quoted(t) == foundation::debug_quoted(t),
{
}

/// The texts of fields are those of each field's name and value, in their order.
pub proof fn field_texts_are_those_of_the_fields(entries: Seq<(String, String)>)
    ensures
        headers::field_texts(entries).len() == entries.len(),
        forall|i: int|
            0 <= i < entries.len() ==> {
                let text = headers::field_texts(entries)[i];
                (#[trigger] entries[i]).0@ == text.0 && entries[i].1@ == text.1
            },
{
}

} // verus!
