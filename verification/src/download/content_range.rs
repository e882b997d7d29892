//! Byte ranges in HTTP headers.

use vstd::prelude::*;

use crate::number::{
    decimal, decimal_text, lemma_decimal_digits, lemma_parse_decimal, parse_u64, parsed_u64,
};
use crate::status::{is_success, success, PARTIAL_CONTENT};
use crate::text::{
    after_last, cut_at_first, cutting_is_at_the_first, eq_ignore_case, last_index,
    lemma_first_index_is, lemma_last_index, same_ignoring_case, same_text, slice_text_of,
    split_after_last, split_once, starts_with, strip_prefix, the_rest_is_behind_the_last,
};

verus! {

/// The total in a `Content-Range`: what follows its last slash, if that is a number.
pub open spec fn range_total(value: Seq<char>) -> Option<u64> {
    match after_last(value, '/') {
        Some(total) => if total == "*"@ {
            None
        } else {
            parsed_u64(total)
        },
        None => None,
    }
}

/// The two numbers that a range spells, with a dash between them.
pub open spec fn range_of(range: Seq<char>) -> Option<(u64, u64)> {
    match cut_at_first(range, '-') {
        Some((start, end)) => match (parsed_u64(start), parsed_u64(end)) {
            (Some(start), Some(end)) => Some((start, end)),
            _ => None,
        },
        None => None,
    }
}

/// The first and the last byte in a `Content-Range` of bytes.
pub open spec fn range_bounds(value: Seq<char>) -> Option<(u64, u64)> {
    if starts_with(value, "bytes "@) {
        match cut_at_first(value.skip("bytes "@.len() as int), '/') {
            Some((range, total)) => range_of(range),
            None => None,
        }
    } else {
        None
    }
}

/// The total in a `Content-Range`.
pub fn parse_content_range_total(value: &str) -> (r: Option<u64>)
    ensures
        r == range_total(value@),
{
    match split_after_last(value, '/') {
        Some(total) => if same_text(total.as_str(), "*") {
            None
        } else {
            parse_u64(total.as_str())
        },
        None => None,
    }
}

/// The first and the last byte in a `Content-Range`.
pub fn parse_content_range_bounds(value: &str) -> (r: Option<(u64, u64)>)
    ensures
        r == range_bounds(value@),
{
    let rest = match strip_prefix(value, "bytes ") {
        Some(rest) => rest,
        None => {
            return None;
        },
    };
    let (range, total) = match split_once(rest.as_str(), '/') {
        Some(parts) => parts,
        None => {
            return None;
        },
    };
    let (start, end) = match split_once(range.as_str(), '-') {
        Some(parts) => parts,
        None => {
            return None;
        },
    };
    match (parse_u64(start.as_str()), parse_u64(end.as_str())) {
        (Some(start), Some(end)) => Some((start, end)),
        _ => None,
    }
}

/// The `Content-Range` for the bytes from `start` to `end` of a resource of `total`
/// bytes.
pub open spec fn content_range_text(start: u64, end: u64, total: u64) -> Seq<char> {
    "bytes "@ + (decimal(start as nat) + "-"@ + decimal(end as nat)) + "/"@ + decimal(total as nat)
}

/// A text of digits does not hold a character that is no digit.
proof fn lemma_no_digit(s: Seq<char>, ch: char)
    requires
        crate::number::all_digits(s),
        !crate::number::is_digit(ch),
    ensures
        forall|i: int| 0 <= i < s.len() ==> s[i] != ch,
{
    assert forall|i: int| 0 <= i < s.len() implies s[i] != ch by {
        assert(crate::number::is_digit(s[i]));
    }
}

/// Reading a `Content-Range` gives back what it was written for.
pub proof fn content_range_round_trip(start: u64, end: u64, total: u64)
    ensures
        range_bounds(content_range_text(start, end, total)) == Some((start, end)),
        range_total(content_range_text(start, end, total)) == Some(total),
{
    reveal_strlit("bytes ");
    reveal_strlit("-");
    reveal_strlit("/");
    reveal_strlit("*");
    let value = content_range_text(start, end, total);
    let (a, b, c) = (decimal(start as nat), decimal(end as nat), decimal(total as nat));
    lemma_decimal_digits(start as nat);
    lemma_decimal_digits(end as nat);
    lemma_decimal_digits(total as nat);
    lemma_parse_decimal(start);
    lemma_parse_decimal(end);
    lemma_parse_decimal(total);
    lemma_no_digit(a, '-');
    lemma_no_digit(a, '/');
    lemma_no_digit(b, '/');
    lemma_no_digit(c, '/');
    let range = a + "-"@ + b;
    let n = "bytes "@.len() as int;
    assert(value.take(n) =~= "bytes "@);
    let rest = value.skip(n);
    assert(rest =~= range + "/"@ + c);
    assert forall|j: int| 0 <= j < range.len() implies rest[j] != '/' by {
        if j < a.len() {
            assert(rest[j] == a[j]);
        } else if j > a.len() {
            assert(rest[j] == b[j - a.len() - 1]);
        } else {
            assert(rest[j] == '-');
        }
    }
    assert(rest[range.len() as int] == '/');
    lemma_first_index_is(rest, '/', range.len() as int);
    assert(rest.take(range.len() as int) =~= range);
    assert forall|j: int| 0 <= j < a.len() implies range[j] != '-' by {
        assert(range[j] == a[j]);
    }
    lemma_first_index_is(range, '-', a.len() as int);
    assert(range.take(a.len() as int) =~= a);
    assert(range.skip(a.len() as int + 1) =~= b);
    let slash = n + range.len();
    assert(value[slash] == '/');
    lemma_last_index(value, '/');
    assert forall|j: int| slash < j < value.len() implies value[j] != '/' by {
        assert(value[j] == c[j - slash - 1]);
    }
    assert(last_index(value, '/') == slash);
    assert(value.skip(slash + 1) =~= c);
    if c == "*"@ {
        assert(crate::number::is_digit(c[0]));
    }
}

/// The `Range` that asks for everything from `start` on.
pub open spec fn open_range_text(start: u64) -> Seq<char> {
    "bytes="@ + decimal(start as nat) + "-"@
}

/// The `Range` that asks for everything from `start` on.
pub fn open_range(start: u64) -> (out: String)
    ensures
        out@ == open_range_text(start),
{
    let mut out = "bytes=".to_owned();
    let number = decimal_text(start as u128);
    out.append(number.as_str());
    out.append("-");
    out
}

/// The `Range` that asks for the bytes from `start` to `end`.
pub open spec fn closed_range_text(start: u64, end: u64) -> Seq<char> {
    "bytes="@ + decimal(start as nat) + "-"@ + decimal(end as nat)
}

/// The `Range` that asks for the bytes from `start` to `end`.
pub fn closed_range(start: u64, end: u64) -> (out: String)
    ensures
        out@ == closed_range_text(start, end),
{
    let mut out = "bytes=".to_owned();
    let first = decimal_text(start as u128);
    out.append(first.as_str());
    out.append("-");
    let last = decimal_text(end as u128);
    out.append(last.as_str());
    out
}

/// The size that an answer to a probe tells: its `Content-Length`, else the total of
/// its `Content-Range`, unless it says that the request failed.
pub open spec fn told_length(
    code: u16,
    content_length: Option<Seq<char>>,
    content_range: Option<Seq<char>>,
) -> Option<u64> {
    let length = match content_length {
        Some(value) => parsed_u64(value),
        None => None,
    };
    if !success(code) {
        None
    } else if length is Some {
        length
    } else {
        match content_range {
            Some(value) => range_total(value),
            None => None,
        }
    }
}

/// The size that an answer to a probe tells.
pub fn probe_content_length(
    code: u16,
    content_length: Option<&str>,
    content_range: Option<&str>,
) -> (r: Option<u64>)
    ensures
        r == told_length(code, slice_text_of(content_length), slice_text_of(content_range)),
{
    if !is_success(code) && code != PARTIAL_CONTENT {
        return None;
    }
    if let Some(value) = content_length {
        if let Some(length) = parse_u64(value) {
            return Some(length);
        }
    }
    match content_range {
        Some(value) => parse_content_range_total(value),
        None => None,
    }
}

/// Whether an answer to a request for the first byte shows that ranges can be asked
/// for: it holds a part, or it says that it accepts ranges of bytes.
pub open spec fn ranges_supported(code: u16, accept_ranges: Option<Seq<char>>) -> bool {
    code == PARTIAL_CONTENT || (accept_ranges matches Some(unit) && same_ignoring_case(
        unit,
        "bytes"@,
    ))
}

/// Whether an answer to a request for the first byte shows that ranges can be asked
/// for.
pub fn supports_ranges(code: u16, accept_ranges: Option<&str>) -> (r: bool)
    ensures
        r == ranges_supported(code, slice_text_of(accept_ranges)),
{
    if code == PARTIAL_CONTENT {
        return true;
    }
    match accept_ranges {
        Some(unit) => eq_ignore_case(unit, "bytes"),
        None => false,
    }
}

/// Two numbers with a dash between them spell these numbers.
proof fn lemma_range_of(start: u64, end: u64)
    ensures
        range_of(decimal(start as nat) + "-"@ + decimal(end as nat)) == Some((start, end)),
{
    reveal_strlit("-");
    let (a, b) = (decimal(start as nat), decimal(end as nat));
    lemma_decimal_digits(start as nat);
    lemma_parse_decimal(start);
    lemma_parse_decimal(end);
    lemma_no_digit(a, '-');
    let range = a + "-"@ + b;
    assert(range =~= a.push('-') + b);
    cutting_is_at_the_first(range, '-', a, b);
}

/// The `Range` for a part names its first and its last byte: what follows `bytes=` in it is
/// read as these two, and so is the `Content-Range` of an answer with exactly this part.
pub proof fn closed_range_names_its_bytes(start: u64, end: u64, total: u64)
    ensures
        exists|range: Seq<char>|
            {
                &&& closed_range_text(start, end) == #[trigger] ("bytes="@ + range)
                &&& range_of(range) == Some((start, end))
                &&& range_bounds("bytes "@ + range + "/"@ + decimal(total as nat)) == Some(
                    (start, end),
                )
            },
        starts_with(closed_range_text(start, end), "bytes="@),
        range_of(closed_range_text(start, end).skip("bytes="@.len() as int)) == Some((start, end)),
{
    let range = decimal(start as nat) + "-"@ + decimal(end as nat);
    lemma_range_of(start, end);
    content_range_round_trip(start, end, total);
    let text = closed_range_text(start, end);
    assert(text =~= "bytes="@ + range);
    assert(text.take("bytes="@.len() as int) =~= "bytes="@);
    assert(text.skip("bytes="@.len() as int) =~= range);
}

/// The `Range` for a rest names its first byte and no last one.
pub proof fn open_range_names_its_start(start: u64)
    ensures
        starts_with(open_range_text(start), "bytes="@),
        cut_at_first(open_range_text(start).skip("bytes="@.len() as int), '-') matches Some(
            (first, last),
        ) && parsed_u64(first) == Some(start) && last.len() == 0,
{
    reveal_strlit("-");
    let text = open_range_text(start);
    let a = decimal(start as nat);
    let none = Seq::<char>::empty();
    lemma_decimal_digits(start as nat);
    lemma_parse_decimal(start);
    lemma_no_digit(a, '-');
    assert(text.take("bytes="@.len() as int) =~= "bytes="@);
    let rest = text.skip("bytes="@.len() as int);
    assert(rest =~= a.push('-') + none);
    cutting_is_at_the_first(rest, '-', a, none);
}

/// A `Content-Range` tells two bytes exactly if it has them behind `bytes`, with a dash between
/// them and a slash behind them; whatever follows that slash does not matter.
pub proof fn bounds_are_read_where_they_stand(
    value: Seq<char>,
    first: Seq<char>,
    last: Seq<char>,
    total: Seq<char>,
)
    requires
        value == "bytes "@ + (first.push('-') + last).push('/') + total,
        !first.contains('-'),
        !first.contains('/'),
        !last.contains('/'),
    ensures
        range_bounds(value) == (match (parsed_u64(first), parsed_u64(last)) {
            (Some(start), Some(end)) => Some((start, end)),
            _ => None,
        }),
{
    let range = first.push('-') + last;
    let n = "bytes "@.len() as int;
    assert(value.take(n) =~= "bytes "@);
    assert(value.skip(n) =~= range.push('/') + total);
    if range.contains('/') {
        let i = range.index_of('/');
        if i < first.len() {
            assert(first[i] == '/');
        } else if i > first.len() {
            assert(last[i - first.len() - 1] == '/');
        }
    }
    cutting_is_at_the_first(value.skip(n), '/', range, total);
    cutting_is_at_the_first(range, '-', first, last);
}

/// Nothing else tells any bytes: where bytes are told the value has this form.
pub proof fn told_bounds_stand_in_the_value(value: Seq<char>)
    requires
        range_bounds(value) is Some,
    ensures
        exists|first: Seq<char>, last: Seq<char>, total: Seq<char>|
            {
                &&& value == "bytes "@ + (#[trigger] (first.push('-') + last)).push('/') + total
                &&& !first.contains('-') && !first.contains('/') && !last.contains('/')
                &&& #[trigger] total.len() >= 0
                &&& parsed_u64(first) == Some((range_bounds(value)->0).0)
                &&& parsed_u64(last) == Some((range_bounds(value)->0).1)
            },
{
    let n = "bytes "@.len() as int;
    let rest = value.skip(n);
    let (range, total) = cut_at_first(rest, '/')->0;
    cutting_is_at_the_first(rest, '/', range, total);
    let (first, last) = cut_at_first(range, '-')->0;
    cutting_is_at_the_first(range, '-', first, last);
    assert(value =~= value.take(n) + rest);
    assert(range == first.push('-') + last);
    assert(rest == range.push('/') + total);
    assert("bytes "@ + (range.push('/') + total) =~= "bytes "@ + range.push('/') + total);
    if first.contains('/') {
        assert(range[first.index_of('/')] == '/');
        assert(range.contains('/'));
    }
    if last.contains('/') {
        assert(range[first.len() + 1 + last.index_of('/')] == '/');
        assert(range.contains('/'));
    }
    assert(total.len() >= 0);
}

/// The total of a `Content-Range` is the number behind its last slash; a star there, or no
/// slash, tells none.
pub proof fn total_is_behind_the_last_slash(start: Seq<char>, total: Seq<char>, value: Seq<char>)
    requires
        !total.contains('/'),
    ensures
        total != seq!['*'] ==> range_total(start.push('/') + total) == parsed_u64(total),
        range_total(start.push('/') + seq!['*']) is None,
        !value.contains('/') ==> range_total(value) is None,
{
    reveal_strlit("*");
    assert("*"@ =~= seq!['*']);
    the_rest_is_behind_the_last(value, '/', start, total);
    assert(!seq!['*'].contains('/'));
    the_rest_is_behind_the_last(value, '/', start, seq!['*']);
}

/// A probe tells the size that stands in `Content-Length`; without a number there the total of
/// `Content-Range`; and nothing when the request did not succeed.
pub proof fn probes_tell_the_length(
    code: u16,
    size: u64,
    range: Option<Seq<char>>,
    other: Option<Seq<char>>,
)
    ensures
        200 <= code <= 299 ==> {
            &&& told_length(code, Some(decimal(size as nat)), range) == Some(size)
            &&& (other is None || parsed_u64(other->0) is None) ==> {
                &&& range is None ==> told_length(code, other, range) is None
                &&& range is Some ==> told_length(code, other, range) == range_total(range->0)
            }
        },
        !(200 <= code <= 299) ==> told_length(code, other, range) is None,
{
    lemma_parse_decimal(size);
}

/// Ranges can be asked for exactly where the first byte came as a part, or `Accept-Ranges` says
/// `bytes`, in whatever case.
pub proof fn ranges_are_announced(code: u16, unit: Seq<char>)
    ensures
        ranges_supported(206, Some(unit)),
        ranges_supported(206, None),
        code != 206 ==> !ranges_supported(code, None),
        code != 206 ==> (ranges_supported(code, Some(unit)) <==> same_ignoring_case(
            unit,
            seq!['b', 'y', 't', 'e', 's'],
        )),
{
    reveal_strlit("bytes");
    assert("bytes"@ =~= seq!['b', 'y', 't', 'e', 's']);
}

} // verus!
