//! What the text primitives are for.

use vstd::prelude::*;
use vstd::utf8;

use crate::text;

verus! {

// ---------------------------------------------------------------------------
// Trimming

/// What is trimmed at the end is white space alone.
pub proof fn trim_end_removes_white_space(s: Seq<char>)
    ensures
        forall|i: int|
            text::trim_end(s).len() <= i < s.len() ==> text::is_white_space(#[trigger] s[i]),
    decreases s.len(),
{
    if s.len() > 0 && text::is_white_space(s.last()) {
        let t = s.drop_last();
        trim_end_removes_white_space(t);
        assert forall|i: int| text::trim_end(s).len() <= i < s.len() implies text::is_white_space(
            #[trigger] s[i],
        ) by {
            if i < t.len() {
                assert(t[i] == s[i]);
            }
        }
    }
}

/// A trimmed text is one piece of the text. All that stands before and after it
/// is white space, and it neither begins nor ends with white space.
pub proof fn trimming_removes_white_space_alone(s: Seq<char>) -> (bounds: (int, int))
    ensures
        0 <= bounds.0 <= bounds.1 <= s.len(),
        text::trimmed(s) == s.subrange(bounds.0, bounds.1),
        forall|i: int| 0 <= i < bounds.0 ==> text::is_white_space(#[trigger] s[i]),
        forall|i: int| bounds.1 <= i < s.len() ==> text::is_white_space(#[trigger] s[i]),
        bounds.0 < bounds.1 ==> !text::is_white_space(s[bounds.0]) && !text::is_white_space(
            s[bounds.1 - 1],
        ),
{
    let a = text::trim_start(s);
    let start = s.len() - a.len();
    text::trim_start_is_suffix(s);
    text::trim_end_is_prefix(a);
    trim_end_removes_white_space(a);
    let end = start + text::trimmed(s).len();
    assert(text::trimmed(s) =~= s.subrange(start, end));
    assert forall|i: int| end <= i < s.len() implies text::is_white_space(#[trigger] s[i]) by {
        assert(a[i - start] == s[i]);
    }
    if start < end {
        assert(a[0] == s[start]);
        assert(text::trimmed(s).last() == s[end - 1]);
    }
    (start, end)
}

/// A text that neither begins nor ends with white space comes out of any white
/// space around it.
pub proof fn trimming_uncovers_text(before: Seq<char>, s: Seq<char>, after: Seq<char>)
    requires
        forall|i: int| 0 <= i < before.len() ==> text::is_white_space(#[trigger] before[i]),
        forall|i: int| 0 <= i < after.len() ==> text::is_white_space(#[trigger] after[i]),
        s.len() > 0 ==> !text::is_white_space(s[0]) && !text::is_white_space(s.last()),
    ensures
        text::trimmed(before + s + after) == s,
{
    let t = before + s + after;
    let (start, end) = trimming_removes_white_space_alone(t);
    assert forall|i: int| 0 <= i < before.len() implies text::is_white_space(#[trigger] t[i]) by {
        assert(t[i] == before[i]);
    }
    let b = before.len() as int;
    let e = b + s.len();
    assert forall|i: int| e <= i < t.len() implies text::is_white_space(#[trigger] t[i]) by {
        assert(t[i] == after[i - e]);
    }
    if s.len() > 0 {
        assert(t[b] == s[0]);
        assert(t[e - 1] == s.last());
        assert(start == b);
        assert(end == e);
        assert(t.subrange(b, e) =~= s);
    } else {
        assert forall|i: int| 0 <= i < t.len() implies text::is_white_space(#[trigger] t[i]) by {}
        assert(start == end);
        assert(t.subrange(start, end) =~= s);
    }
}

/// Trimming at one end first makes no difference.
pub proof fn trimming_ends_first(s: Seq<char>)
    ensures
        text::trimmed(text::trim_start(s)) == text::trimmed(s),
        text::trimmed(text::trim_end(s)) == text::trimmed(s),
    decreases s.len(),
{
    text::trim_start_is_suffix(s);
    assert(text::trim_start(text::trim_start(s)) == text::trim_start(s));
    if s.len() > 0 && text::is_white_space(s.last()) {
        let t = s.drop_last();
        trimming_ends_first(t);
        let (start, end) = trimming_removes_white_space_alone(t);
        let before = t.take(start);
        let core = t.subrange(start, end);
        let after = t.skip(end).push(s.last());
        assert(s =~= before + core + after);
        assert forall|i: int| 0 <= i < before.len() implies text::is_white_space(
            #[trigger] before[i],
        ) by {
            assert(before[i] == t[i]);
        }
        assert forall|i: int| 0 <= i < after.len() implies text::is_white_space(
            #[trigger] after[i],
        ) by {
            if i < after.len() - 1 {
                assert(after[i] == t[end + i]);
            }
        }
        if core.len() > 0 {
            assert(core[0] == t[start]);
            assert(core.last() == t[end - 1]);
        }
        trimming_uncovers_text(before, core, after);
    }
}

/// White space before a character that is none is trimmed at the start, and what
/// follows the character stays.
pub proof fn trim_start_stops_at(a: Seq<char>, c: char, b: Seq<char>)
    requires
        !text::is_white_space(c),
    ensures
        text::trim_start(a.push(c) + b) == text::trim_start(a).push(c) + b,
    decreases a.len(),
{
    let s = a.push(c) + b;
    if a.len() == 0 {
        assert(s[0] == c);
    } else {
        assert(s[0] == a[0]);
        if text::is_white_space(a[0]) {
            trim_start_stops_at(a.drop_first(), c, b);
            assert(s.drop_first() =~= a.drop_first().push(c) + b);
        }
    }
}

/// White space after a character that is none is trimmed at the end, and what
/// precedes the character stays.
pub proof fn trim_end_stops_at(a: Seq<char>, c: char, b: Seq<char>)
    requires
        !text::is_white_space(c),
    ensures
        text::trim_end(a.push(c) + b) == a.push(c) + text::trim_end(b),
    decreases b.len(),
{
    let s = a.push(c) + b;
    if b.len() == 0 {
        assert(s =~= a.push(c));
        assert(s.last() == c);
        assert(a.push(c) + text::trim_end(b) =~= s);
    } else {
        assert(s.last() == b.last());
        if text::is_white_space(b.last()) {
            trim_end_stops_at(a, c, b.drop_last());
            assert(s.drop_last() =~= a.push(c) + b.drop_last());
        }
    }
}

/// A character over and over.
pub open spec fn repeated(c: char, n: nat) -> Seq<char> {
    Seq::new(n, |i: int| c)
}

/// The run of `c` at the end of a text is removed, and nothing else.
pub proof fn run_at_end_is_removed(s: Seq<char>, c: char, n: nat)
    requires
        s.len() == 0 || s.last() != c,
    ensures
        text::trim_end_of(s + repeated(c, n), c) == s,
    decreases n,
{
    let t = s + repeated(c, n);
    if n == 0 {
        assert(t =~= s);
    } else {
        let m = (n - 1) as nat;
        run_at_end_is_removed(s, c, m);
        assert(t.last() == c);
        assert(t.drop_last() =~= s + repeated(c, m));
    }
}

// ---------------------------------------------------------------------------
// Splitting

proof fn first_of_joined(a: Seq<char>, c: char, b: Seq<char>)
    requires
        !a.contains(c),
    ensures
        text::first_of(a.push(c) + b, c) == a.len(),
        (a.push(c) + b).take(a.len() as int) == a,
        (a.push(c) + b).skip(a.len() as int + 1) == b,
{
    let s = a.push(c) + b;
    text::first_of_is_first(s, c);
    let i = text::first_of(s, c);
    assert(s[a.len() as int] == c);
    if i < a.len() {
        assert(s[i] == a[i]);
        assert(a.contains(a[i]));
    }
    assert(s.take(a.len() as int) =~= a);
    assert(s.skip(a.len() as int + 1) =~= b);
}

proof fn first_of_absent(a: Seq<char>, c: char)
    requires
        !a.contains(c),
    ensures
        text::first_of(a, c) == a.len(),
{
    text::first_of_is_first(a, c);
    let i = text::first_of(a, c);
    if i < a.len() {
        assert(a.contains(a[i]));
    }
}

/// Splitting at the first `c` takes apart what `c` joins.
pub proof fn splitting_undoes_joining(a: Seq<char>, c: char, b: Seq<char>)
    requires
        !a.contains(c),
    ensures
        text::split_once(a.push(c) + b, c) == Some((a, b)),
        text::split_once(a, c) is None,
{
    first_of_joined(a, c, b);
    first_of_absent(a, c);
}

/// Splitting at the last `c` takes apart what `c` joins.
pub proof fn splitting_last_undoes_joining(a: Seq<char>, c: char, b: Seq<char>)
    requires
        !b.contains(c),
    ensures
        text::rsplit_once(a.push(c) + b, c) == Some((a, b)),
        text::rsplit_once(b, c) is None,
{
    let s = a.push(c) + b;
    text::last_of_is_last(s, c);
    text::last_of_is_last(b, c);
    let n = a.len() as int;
    assert(s[n] == c);
    let i = text::last_of(s, c);
    if i > n {
        assert(s[i] == b[i - n - 1]);
        assert(b.contains(b[i - n - 1]));
    }
    assert(i == n);
    assert(s.take(n) =~= a);
    assert(s.skip(n + 1) =~= b);
    let j = text::last_of(b, c);
    if j >= 0 {
        assert(b.contains(b[j]));
    }
}

/// The pieces of what `c` joins are the piece before it and those after it; a
/// text without `c` is one piece.
pub proof fn pieces_of_joined(a: Seq<char>, c: char, b: Seq<char>)
    requires
        !a.contains(c),
    ensures
        text::split_at_each(a.push(c) + b, c) == seq![a] + text::split_at_each(b, c),
        text::split_at_each(a, c) == seq![a],
{
    first_of_joined(a, c, b);
    first_of_absent(a, c);
}

/// A line that ends with a line feed, or with a carriage return and a line feed,
/// becomes the first line of what follows. A text without a line feed is one
/// line, unless it is empty.
pub proof fn lines_of_joined(line: Seq<char>, rest: Seq<char>)
    requires
        !line.contains('\n'),
    ensures
        line.len() == 0 || line.last() != '\r' ==> text::lines(line.push('\n') + rest) == seq![line]
            + text::lines(rest),
        text::lines(line.push('\r').push('\n') + rest) == seq![line] + text::lines(rest),
        line.len() > 0 ==> text::lines(line) == seq![line],
        text::lines(Seq::<char>::empty()).len() == 0,
{
    first_of_joined(line, '\n', rest);
    first_of_absent(line, '\n');
    let l = line.push('\r');
    assert forall|i: int| 0 <= i < l.len() implies l[i] != '\n' by {
        if i < line.len() {
            assert(line.contains(line[i]));
        }
    }
    first_of_joined(l, '\n', rest);
    assert(l.drop_last() =~= line);
}

/// Removing a prefix gives back what was put behind it, and only what begins
/// with the prefix has one to remove.
pub proof fn stripping_undoes_prefixing(s: Seq<char>, prefix: Seq<char>, rest: Seq<char>)
    ensures
        text::strip_prefix_of(prefix + rest, prefix) == Some(rest),
        text::strip_prefix_of(s, prefix) matches Some(r) ==> s == prefix + r,
        text::has_prefix(s, prefix) <==> text::strip_prefix_of(s, prefix) is Some,
{
    assert((prefix + rest).take(prefix.len() as int) =~= prefix);
    assert((prefix + rest).skip(prefix.len() as int) =~= rest);
    if text::has_prefix(s, prefix) {
        assert(s =~= s.take(prefix.len() as int) + s.skip(prefix.len() as int));
    }
}

// ---------------------------------------------------------------------------
// Case

/// Lower case keeps the length, moves each of `A` to `Z` by the distance from `A`
/// to `a`, and keeps every other character.
pub proof fn lower_case_moves_letters_alone(s: Seq<char>)
    ensures
        text::ascii_lowercase(s).len() == s.len(),
        forall|i: int|
            0 <= i < s.len() ==> {
                let c = #[trigger] s[i];
                let l = text::ascii_lowercase(s)[i];
                if 'A' <= c <= 'Z' {
                    l as int - 'a' as int == c as int - 'A' as int
                } else {
                    l == c
                }
            },
{
}

// ---------------------------------------------------------------------------
// Numerals

/// The numeral of a number below ten is its digit; one more digit behind a
/// numeral is ten times the number and the digit.
pub proof fn numerals_grow_by_digits(n: nat, d: nat)
    requires
        d < 10,
    ensures
        text::decimal(d).len() == 1,
        text::decimal(d)[0] as int == '0' as int + d,
        n > 0 ==> text::decimal(10 * n + d) == text::decimal(n) + text::decimal(d),
{
    let m = 10 * n + d;
    assert(m / 10 == n && m % 10 == d);
    assert(text::decimal(d) == seq![text::digit(d)]);
    if n > 0 {
        assert(text::decimal(m) == text::decimal(n).push(text::digit(d)));
        assert(text::decimal(m) =~= text::decimal(n) + text::decimal(d));
    }
}

/// Different numbers have different numerals.
pub proof fn numerals_are_distinct(m: nat, n: nat)
    requires
        text::decimal(m) == text::decimal(n),
    ensures
        m == n,
{
    text::parse_undoes_decimal(m, m + n);
    text::parse_undoes_decimal(n, m + n);
}

/// A text denotes a number exactly if it is the number's numeral behind any
/// number of zeros and an optional plus sign, and the number is within bounds.
pub proof fn numbers_are_denoted_by_numerals(s: Seq<char>, n: nat, max: nat)
    ensures
        text::parsed_decimal(s, max) == Some(n) <==> n <= max && (exists|zeros: nat|
            s == #[trigger] repeated('0', zeros) + text::decimal(n) || s == seq!['+']
                + repeated('0', zeros) + text::decimal(n)),
{
    let digits = text::without_plus(s);
    if text::parsed_decimal(s, max) == Some(n) {
        let zeros = zeros_before(digits);
        let z = repeated('0', zeros);
        if s.len() > 0 && s[0] == '+' {
            assert(s =~= seq!['+'] + digits);
            assert(s =~= seq!['+'] + z + text::decimal(n));
        } else {
            assert(s == z + text::decimal(n));
        }
    }
    if n <= max && (exists|zeros: nat|
        s == #[trigger] repeated('0', zeros) + text::decimal(n) || s == seq!['+']
            + repeated('0', zeros) + text::decimal(n)) {
        let zeros = choose|zeros: nat|
            s == #[trigger] repeated('0', zeros) + text::decimal(n) || s == seq!['+']
                + repeated('0', zeros) + text::decimal(n);
        let z = repeated('0', zeros);
        let t = z + text::decimal(n);
        padded_value(zeros, n);
        text::decimal_is_digits(n);
        assert(t[0] != '+') by {
            if zeros == 0 {
                assert(t[0] == text::decimal(n)[0]);
                assert('0' <= text::decimal(n)[0]);
            }
        }
        if s == t {
            assert(digits == t);
        } else {
            assert(s =~= seq!['+'] + t);
            assert(s.skip(1) =~= t);
        }
    }
}

proof fn padded_value(zeros: nat, n: nat)
    ensures
        text::all_digits(repeated('0', zeros) + text::decimal(n)),
        text::numeral_value(repeated('0', zeros) + text::decimal(n)) == n,
    decreases n,
{
    let z = repeated('0', zeros);
    let t = z + text::decimal(n);
    text::decimal_is_digits(n);
    assert forall|i: int| 0 <= i < t.len() implies '0' <= #[trigger] t[i] <= '9' by {
        if i >= zeros {
            assert(t[i] == text::decimal(n)[i - zeros]);
        }
    }
    if n >= 10 {
        padded_value(zeros, n / 10);
        assert(t.drop_last() =~= z + text::decimal(n / 10));
    } else {
        assert(t.drop_last() =~= z);
        zeros_are_zero(zeros);
    }
}

proof fn zeros_are_zero(zeros: nat)
    ensures
        text::numeral_value(repeated('0', zeros)) == 0,
    decreases zeros,
{
    let z = repeated('0', zeros);
    if zeros > 0 {
        let m = (zeros - 1) as nat;
        zeros_are_zero(m);
        assert(z.drop_last() =~= repeated('0', m));
    }
}

proof fn zeros_before(s: Seq<char>) -> (zeros: nat)
    requires
        s.len() > 0,
        text::all_digits(s),
    ensures
        s == repeated('0', zeros) + text::decimal(text::numeral_value(s)),
    decreases s.len(),
{
    let t = s.drop_last();
    let c = s.last();
    assert('0' <= s[s.len() - 1] <= '9');
    let d = (c as u32 - 0x30) as nat;
    let v = text::numeral_value(t);
    assert(text::digit(d) == c);
    assert(text::numeral_value(s) == 10 * v + d);
    if t.len() == 0 {
        assert(v == 0);
        assert(s =~= repeated('0', 0) + text::decimal(d));
        0
    } else {
        assert forall|i: int| 0 <= i < t.len() implies '0' <= #[trigger] t[i] <= '9' by {
            assert(t[i] == s[i]);
        }
        let zeros = zeros_before(t);
        assert(s =~= t + seq![c]);
        assert(text::decimal(d) == seq![c]);
        if v == 0 {
            assert(text::decimal(0) == seq!['0']);
            assert(repeated('0', zeros + 1) =~= repeated('0', zeros) + seq!['0']);
            assert(s =~= repeated('0', zeros + 1) + text::decimal(d));
            zeros + 1
        } else {
            numerals_grow_by_digits(v, d);
            assert(s =~= repeated('0', zeros) + (text::decimal(v) + seq![c]));
            zeros
        }
    }
}

// ---------------------------------------------------------------------------
// Order

/// One text precedes another exactly if, behind the UTF-8 bytes that both begin
/// with, it ends before the other does or goes on with a smaller byte.
pub proof fn order_is_that_of_bytes(a: Seq<char>, b: Seq<char>)
    ensures
        ({
            let x = utf8::encode_utf8(a);
            let y = utf8::encode_utf8(b);
            text::precedes(a, b) <==> exists|k: int|
                0 <= k <= x.len() && k < y.len() && #[trigger] x.take(k) == y.take(k) && (k
                    == x.len() || x[k] < y[k])
        }),
{
    bytes_are_ordered(utf8::encode_utf8(a), utf8::encode_utf8(b));
}

proof fn bytes_are_ordered(x: Seq<u8>, y: Seq<u8>)
    ensures
        text::bytes_precede(x, y) <==> exists|k: int|
            0 <= k <= x.len() && k < y.len() && #[trigger] x.take(k) == y.take(k) && (k == x.len()
                || x[k] < y[k]),
    decreases x.len(),
{
    if y.len() > 0 {
        assert(x.take(0) == y.take(0));
        if x.len() > 0 && x[0] == y[0] {
            let u = x.drop_first();
            let v = y.drop_first();
            bytes_are_ordered(u, v);
            if text::bytes_precede(x, y) {
                let k = choose|k: int|
                    0 <= k <= u.len() && k < v.len() && #[trigger] u.take(k) == v.take(k) && (k
                        == u.len() || u[k] < v[k]);
                assert(x.take(k + 1) =~= seq![x[0]] + u.take(k));
                assert(y.take(k + 1) =~= seq![y[0]] + v.take(k));
                assert(x.take(k + 1) == y.take(k + 1));
            }
            if exists|k: int|
                0 <= k <= x.len() && k < y.len() && #[trigger] x.take(k) == y.take(k) && (k
                    == x.len() || x[k] < y[k]) {
                let k = choose|k: int|
                    0 <= k <= x.len() && k < y.len() && #[trigger] x.take(k) == y.take(k) && (k
                        == x.len() || x[k] < y[k]);
                assert(k > 0);
                assert(u.take(k - 1) =~= x.take(k).drop_first());
                assert(v.take(k - 1) =~= y.take(k).drop_first());
                assert(u.take(k - 1) == v.take(k - 1));
            }
        } else if x.len() > 0 {
            if exists|k: int|
                0 <= k <= x.len() && k < y.len() && #[trigger] x.take(k) == y.take(k) && (k
                    == x.len() || x[k] < y[k]) {
                let k = choose|k: int|
                    0 <= k <= x.len() && k < y.len() && #[trigger] x.take(k) == y.take(k) && (k
                        == x.len() || x[k] < y[k]);
                if k > 0 {
                    assert(x.take(k)[0] == y.take(k)[0]);
                }
            }
        }
    }
}

// ---------------------------------------------------------------------------
// Strings and their texts

/// The texts of strings and of slices are those of each, in their order; an
/// optional string has a text exactly if it is there.
pub proof fn texts_are_those_of_the_strings(
    strings: Seq<String>,
    parts: Seq<&[char]>,
    slice: Option<&str>,
    string: Option<String>,
)
    ensures
        text::texts(strings).len() == strings.len(),
        forall|i: int|
            0 <= i < strings.len() ==> (#[trigger] strings[i])@ == text::texts(strings)[i],
        text::slices(parts).len() == parts.len(),
        forall|i: int| 0 <= i < parts.len() ==> (#[trigger] parts[i])@ == text::slices(parts)[i],
        slice matches Some(s) ==> text::maybe(slice) == Some(s@),
        slice is None ==> text::maybe(slice) is None,
        string matches Some(s) ==> text::maybe_owned(string) == Some(s@),
        string is None ==> text::maybe_owned(string) is None,
{
}

} // verus!
