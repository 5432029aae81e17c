//! The header section and the body of an RFC 822 message.

use vstd::prelude::*;
use vstd::slice::slice_subrange;
use vstd::utf8;

use crate::foundation;
use crate::text;

verus! {

// ---------------------------------------------------------------------------
// Where the header section ends

/// The position of the first occurrence of a pattern, or the length of the data
/// if there is none.
pub open spec fn position_of(data: Seq<u8>, pattern: Seq<u8>) -> int
    decreases data.len(),
{
    if data.len() == 0 || data.len() < pattern.len() {
        data.len() as int
    } else if data.take(pattern.len() as int) == pattern {
        0
    } else {
        1 + position_of(data.drop_first(), pattern)
    }
}

/// The length of the header section and of the empty line that ends it: the
/// first empty line with carriage returns, or else the first without, or else
/// the header section is all there is.
pub open spec fn header_end(raw: Seq<u8>) -> (int, int) {
    let crlf = position_of(raw, seq![13u8, 10u8, 13u8, 10u8]);
    let lf = position_of(raw, seq![10u8, 10u8]);
    if crlf < raw.len() {
        (crlf, 4)
    } else if lf < raw.len() {
        (lf, 2)
    } else {
        (raw.len() as int, 0)
    }
}

/// A pattern stands at its position, unless that is the length.
pub proof fn position_is_occurrence(data: Seq<u8>, pattern: Seq<u8>)
    requires
        pattern.len() > 0,
    ensures
        0 <= position_of(data, pattern) <= data.len(),
        position_of(data, pattern) < data.len() ==> {
            let i = position_of(data, pattern);
            i + pattern.len() <= data.len() && data.subrange(i, i + pattern.len()) == pattern
        },
    decreases data.len(),
{
    if data.len() > 0 && data.len() >= pattern.len() {
        if data.take(pattern.len() as int) == pattern {
            assert(data.subrange(0, pattern.len() as int) == pattern);
        } else {
            let rest = data.drop_first();
            position_is_occurrence(rest, pattern);
            let i = position_of(rest, pattern);
            if i < rest.len() {
                assert(data.subrange(i + 1, i + 1 + pattern.len()) == rest.subrange(
                    i,
                    i + pattern.len(),
                ));
            }
        }
    }
}

/// What follows the first occurrence of a pattern does not move it.
pub proof fn position_depends_on_beginning(
    data: Seq<u8>,
    other: Seq<u8>,
    pattern: Seq<u8>,
    n: int,
)
    requires
        pattern.len() > 0,
        position_of(data, pattern) < data.len(),
        position_of(data, pattern) + pattern.len() <= n,
        n <= data.len(),
        n <= other.len(),
        data.take(n) == other.take(n),
    ensures
        position_of(other, pattern) == position_of(data, pattern),
    decreases data.len(),
{
    let m = pattern.len() as int;
    position_is_occurrence(data, pattern);
    assert(data.take(m) == data.take(n).take(m));
    assert(other.take(m) == other.take(n).take(m));
    if data.take(m) != pattern {
        let rest = data.drop_first();
        let other_rest = other.drop_first();
        assert(rest.take(n - 1) == data.take(n).drop_first());
        assert(other_rest.take(n - 1) == other.take(n).drop_first());
        position_depends_on_beginning(rest, other_rest, pattern, n - 1);
    }
}

fn occurs_at(data: &[u8], pattern: &[u8], at: usize) -> (r: bool)
    requires
        at + pattern@.len() <= data@.len(),
    ensures
        r == (data@.subrange(at as int, at + pattern@.len()) == pattern@),
{
    let mut i: usize = 0;
    while i < pattern.len()
        invariant
            i <= pattern@.len(),
            at + pattern@.len() <= data.len(),
            forall|j: int| 0 <= j < i ==> data@[at + j] == pattern@[j],
        decreases pattern.len() - i,
    {
        if data[at + i] != pattern[i] {
            assert(data@.subrange(at as int, at + pattern@.len())[i as int] != pattern@[i as int]);
            return false;
        }
        i += 1;
    }
    assert(data@.subrange(at as int, at + pattern@.len()) =~= pattern@);
    true
}

fn find_bytes(data: &[u8], pattern: &[u8]) -> (i: usize)
    requires
        pattern@.len() > 0,
    ensures
        i == position_of(data@, pattern@),
{
    let mut i: usize = 0;
    assert(data@.skip(0) == data@);
    while i < data.len() && pattern.len() <= data.len() - i
        invariant
            pattern@.len() > 0,
            i <= data@.len(),
            position_of(data@, pattern@) == i + position_of(data@.skip(i as int), pattern@),
        decreases data.len() - i,
    {
        let ghost rest = data@.skip(i as int);
        assert(rest.take(pattern@.len() as int) == data@.subrange(i as int, i + pattern@.len()));
        if occurs_at(data, pattern, i) {
            return i;
        }
        assert(rest.drop_first() == data@.skip(i + 1));
        i += 1;
    }
    assert(data@.skip(i as int).len() == data@.len() - i);
    data.len()
}

// ---------------------------------------------------------------------------
// Header fields

/// Whether a line continues the field before it.
pub open spec fn is_continuation(line: Seq<char>) -> bool {
    line.len() > 0 && (line[0] == ' ' || line[0] == '\t')
}

/// A value with one more line appended.
pub open spec fn continued(value: Seq<char>, line: Seq<char>) -> Seq<char> {
    value.push(' ') + text::trimmed(line)
}

/// The fields of a header section: the name in lower case, and the value. A
/// line that begins with a space or a tab continues the value before it; any
/// other line without a colon is skipped.
pub open spec fn fields(lines: Seq<Seq<char>>) -> Seq<(Seq<char>, Seq<char>)>
    decreases lines.len(),
{
    if lines.len() == 0 {
        seq![]
    } else {
        let before = fields(lines.drop_last());
        let line = lines.last();
        if is_continuation(line) {
            if before.len() == 0 {
                before
            } else {
                before.drop_last().push((before.last().0, continued(before.last().1, line)))
            }
        } else {
            match text::split_once(line, ':') {
                Some((name, value)) => before.push(
                    (text::ascii_lowercase(name), text::trimmed(value)),
                ),
                None => before,
            }
        }
    }
}

/// The value of the first field of a name.
pub open spec fn lookup(entries: Seq<(Seq<char>, Seq<char>)>, name: Seq<char>) -> Option<Seq<char>>
    decreases entries.len(),
{
    if entries.len() == 0 {
        None
    } else if entries[0].0 == name {
        Some(entries[0].1)
    } else {
        lookup(entries.drop_first(), name)
    }
}

/// What a sequence of fields says.
pub open spec fn field_texts(entries: Seq<(String, String)>) -> Seq<(Seq<char>, Seq<char>)> {
    Seq::new(entries.len(), |i: int| (entries[i].0@, entries[i].1@))
}

fn push_field(entries: &mut Vec<(String, String)>, name: String, value: String)
    ensures
        field_texts(final(entries)@) == field_texts(old(entries)@).push((name@, value@)),
{
    let ghost before = entries@;
    entries.push((name, value));
    assert(field_texts(entries@) == field_texts(before).push((name@, value@)));
}

/// Reads the fields of a header section.
pub fn parse_fields(section: &str) -> (entries: Vec<(String, String)>)
    ensures
        field_texts(entries@) == fields(text::lines(section@)),
{
    let chars = text::chars_of(section);
    let lines = text::split_lines(chars.as_slice());
    let ghost all = text::slices(lines@);
    let mut entries: Vec<(String, String)> = Vec::new();
    let mut i: usize = 0;
    assert(all.take(0) == Seq::<Seq<char>>::empty());
    assert(field_texts(entries@) == Seq::<(Seq<char>, Seq<char>)>::empty());
    while i < lines.len()
        invariant
            i <= lines@.len(),
            all == text::slices(lines@),
            field_texts(entries@) == fields(all.take(i as int)),
        decreases lines.len() - i,
    {
        let line: &[char] = lines[i];
        let ghost before = field_texts(entries@);
        proof {
            assert(all.take(i + 1).drop_last() == all.take(i as int));
            assert(all.take(i + 1).last() == line@);
        }
        if line.len() > 0 && (line[0] == ' ' || line[0] == '\t') {
            match entries.pop() {
                Some(entry) => {
                    let (name, mut value) = entry;
                    proof {
                        assert(before.last() == (name@, value@));
                        assert(field_texts(entries@) == before.drop_last());
                    }
                    value.push(' ');
                    value.append(text::string_of(text::trim(line)).as_str());
                    push_field(&mut entries, name, value);
                },
                None => {
                    assert(before.len() == 0);
                },
            }
        } else {
            let colon: usize = text::find(line, ':');
            if colon < line.len() {
                let name = slice_subrange(line, 0, colon);
                let value = slice_subrange(line, colon + 1, line.len());
                proof {
                    assert(name@ == line@.take(colon as int));
                    assert(value@ == line@.skip(colon + 1));
                }
                let lower = text::to_ascii_lowercase(name);
                push_field(
                    &mut entries,
                    text::string_of(lower.as_slice()),
                    text::string_of(text::trim(value)),
                );
            }
        }
        i += 1;
    }
    assert(all.take(i as int) == all);
    entries
}

// ---------------------------------------------------------------------------
// Messages

/// A message, taken apart.
pub struct Headers<'a> {
    entries: Vec<(String, String)>,
    body: &'a [u8],
}

/// What a message holds.
#[verifier::ext_equal]
pub struct HeadersModel {
    pub entries: Seq<(Seq<char>, Seq<char>)>,
    pub body: Seq<u8>,
}

impl<'a> View for Headers<'a> {
    type V = HeadersModel;

    closed spec fn view(&self) -> HeadersModel {
        HeadersModel { entries: field_texts(self.entries@), body: self.body@ }
    }
}

/// The header fields and the body of a message.
pub open spec fn parsed(raw: Seq<u8>) -> HeadersModel {
    let (end, gap) = header_end(raw);
    HeadersModel {
        entries: fields(text::lines(foundation::decoded(raw.take(end)))),
        body: raw.skip(end + gap),
    }
}

/// The text of a body: there is none if the body is empty or not UTF-8.
pub open spec fn text_of_body(body: Seq<u8>) -> Option<Seq<char>> {
    if body.len() > 0 && utf8::valid_utf8(body) {
        Some(utf8::decode_utf8(body))
    } else {
        None
    }
}

impl<'a> Headers<'a> {
    /// Takes a message apart.
    pub fn parse(raw: &'a [u8]) -> (headers: Self)
        ensures
            headers@ == parsed(raw@),
    {
        let crlf_line: [u8; 4] = [13, 10, 13, 10];
        let lf_line: [u8; 2] = [10, 10];
        assert(crlf_line@ == seq![13u8, 10u8, 13u8, 10u8]);
        assert(lf_line@ == seq![10u8, 10u8]);
        let crlf: usize = find_bytes(raw, &crlf_line);
        let lf: usize = find_bytes(raw, &lf_line);
        let (end, gap): (usize, usize) = if crlf < raw.len() {
            (crlf, 4)
        } else if lf < raw.len() {
            (lf, 2)
        } else {
            (raw.len(), 0)
        };
        proof {
            position_is_occurrence(raw@, crlf_line@);
            position_is_occurrence(raw@, lf_line@);
        }
        let section = slice_subrange(raw, 0, end);
        assert(section@ == raw@.take(end as int));
        let decoded = foundation::from_utf8_lossy(section);
        let body = slice_subrange(raw, end + gap, raw.len());
        assert(body@ == raw@.skip(end + gap));
        Self::of_section(decoded.as_str(), body)
    }

    /// A message with the given header section and body.
    pub fn of_section(section: &str, body: &'a [u8]) -> (headers: Self)
        ensures
            headers@.entries == fields(text::lines(section@)),
            headers@.body == body@,
    {
        Headers { entries: parse_fields(section), body }
    }

    /// The value of the first field of a name, which is to be in lower case.
    pub fn get(&self, name: &str) -> (r: Option<&str>)
        ensures
            r is Some <==> lookup(self@.entries, name@) is Some,
            r matches Some(value) ==> lookup(self@.entries, name@) == Some(value@),
    {
        let wanted = name.to_owned();
        let ghost entries = self@.entries;
        let mut i: usize = 0;
        assert(entries.skip(0) == entries);
        while i < self.entries.len()
            invariant
                i <= self.entries@.len(),
                wanted@ == name@,
                entries == field_texts(self.entries@),
                lookup(entries, name@) == lookup(entries.skip(i as int), name@),
            decreases self.entries.len() - i,
        {
            let ghost rest = entries.skip(i as int);
            assert(rest[0] == entries[i as int]);
            assert(rest.drop_first() == entries.skip(i + 1));
            if self.entries[i].0 == wanted {
                return Some(self.entries[i].1.as_str());
            }
            i += 1;
        }
        None
    }

    /// The body, if it is text.
    pub fn body_text(&self) -> (r: Option<&str>)
        ensures
            r is Some <==> text_of_body(self@.body) is Some,
            r matches Some(s) ==> text_of_body(self@.body) == Some(s@),
    {
        if self.body.len() == 0 {
            return None;
        }
        match std::str::from_utf8(self.body) {
            Ok(s) => Some(s),
            Err(_) => None,
        }
    }
}

} // verus!
