//! What is shown to the user of a download.

use vstd::prelude::*;

use crate::number::{
    all_digits, decimal, decimal_text, digit, digits_value, is_digit, lemma_decimal_digits,
};
use crate::source::{ResolvedModel, SourceKind};
use crate::text::{chars_of, substring, text_of, texts};

verus! {

/// The size from which a file has a progress bar of its own.
pub const DETAIL_BAR_THRESHOLD: u64 = 8_388_608;

/// The largest number of characters of a path that is shown whole.
pub const MAX_PATH_CHARS: usize = 42;

/// A path as it is shown: whole if it is short, else its end behind an ellipsis.
pub open spec fn shown_path(path: Seq<char>) -> Seq<char> {
    if path.len() <= MAX_PATH_CHARS {
        path
    } else {
        "…"@ + path.skip(path.len() - (MAX_PATH_CHARS - 1))
    }
}

/// A path as it is shown.
pub fn display_path(path: &str) -> (out: String)
    ensures
        out@ == shown_path(path@),
{
    let chars = chars_of(path);
    if chars.len() <= MAX_PATH_CHARS {
        return path.to_owned();
    }
    let mut out = "…".to_owned();
    let tail = substring(&chars, chars.len() - (MAX_PATH_CHARS - 1), chars.len());
    assert(tail@ == path@.skip(path@.len() - (MAX_PATH_CHARS - 1)));
    out.append(tail.as_str());
    out
}

/// No path takes more room than the longest one that is shown whole.
pub proof fn shown_path_is_short(path: Seq<char>)
    ensures
        shown_path(path).len() <= MAX_PATH_CHARS,
{
    reveal_strlit("…");
}

/// `a` divided by `b`, rounded to the nearest whole number, and to the even one of two
/// that are equally near.
pub open spec fn rounded(a: int, b: int) -> int {
    let (whole, rest) = (a / b, a % b);
    if 2 * rest < b || (2 * rest == b && whole % 2 == 0) {
        whole
    } else {
        whole + 1
    }
}

/// The distance between neighbouring numbers of double precision at `n`, from `p` on:
/// the smallest power of two by which `n` has at most 53 binary digits.
pub open spec fn spacing(n: int, p: int) -> int
    decreases n - p,
{
    if p <= 0 || n < 9_007_199_254_740_992 * p {
        p
    } else {
        spacing(n, 2 * p)
    }
}

/// The number of double precision that is nearest to `n`.
pub open spec fn nearest_double(n: int) -> int {
    rounded(n, spacing(n, 1)) * spacing(n, 1)
}

/// How often a number can be divided by 1024 before it is smaller than that, and at most
/// four times.
pub open spec fn unit_of(value: int) -> int {
    if value < 1024 {
        0
    } else if value < 1_048_576 {
        1
    } else if value < 1_073_741_824 {
        2
    } else if value < 1_099_511_627_776 {
        3
    } else {
        4
    }
}

/// The number of bytes in a unit.
pub open spec fn unit_bytes(unit: int) -> int {
    if unit == 0 {
        1
    } else if unit == 1 {
        1024
    } else if unit == 2 {
        1_048_576
    } else if unit == 3 {
        1_073_741_824
    } else {
        1_099_511_627_776
    }
}

/// The name of a unit.
pub open spec fn unit_name(unit: int) -> Seq<char> {
    if unit == 0 {
        "B"@
    } else if unit == 1 {
        "KiB"@
    } else if unit == 2 {
        "MiB"@
    } else if unit == 3 {
        "GiB"@
    } else {
        "TiB"@
    }
}

/// A number of hundredths with two digits behind the point.
pub open spec fn with_hundredths(hundredths: int) -> Seq<char> {
    decimal((hundredths / 100) as nat).push('.').push(digit(hundredths / 10 % 10)).push(
        digit(hundredths % 10),
    )
}

/// A size as it is shown: in bytes when it is small, else in the largest unit of which it
/// has at least one, with two digits behind the point. The size counts as the nearest
/// number of double precision.
pub open spec fn shown_size(bytes: u64) -> Seq<char> {
    let value = nearest_double(bytes as int);
    let unit = unit_of(value);
    if unit == 0 {
        decimal(bytes as nat) + " "@ + "B"@
    } else {
        with_hundredths(rounded(value * 100, unit_bytes(unit))) + " "@ + unit_name(unit)
    }
}

/// `a` divided by `b`, rounded.
fn divide_rounded(a: u128, b: u128) -> (r: u128)
    requires
        0 < b <= 0x1_0000_0000_0000_0000,
        a <= 0x1_0000_0000_0000_0000_0000,
    ensures
        r == rounded(a as int, b as int),
{
    let whole = a / b;
    let rest = a % b;
    proof {
        vstd::arithmetic::div_mod::lemma_div_nonincreasing(a as int, b as int);
    }
    if 2 * rest < b || (2 * rest == b && whole % 2 == 0) {
        whole
    } else {
        whole + 1
    }
}

/// The number of double precision that is nearest to `n`.
fn to_double(n: u64) -> (r: u128)
    ensures
        r == nearest_double(n as int),
        r <= 0x2_0000_0000_0000_0000,
{
    let mut p: u128 = 1;
    while n as u128 >= 9_007_199_254_740_992 * p
        invariant
            1 <= p <= 4096,
            spacing(n as int, p as int) == spacing(n as int, 1),
        decreases 4096 - p,
    {
        p = 2 * p;
    }
    let count = divide_rounded(n as u128, p);
    proof {
        vstd::arithmetic::div_mod::lemma_fundamental_div_mod(n as int, p as int);
        let whole = n as int / p as int;
        assert(whole < 9_007_199_254_740_992) by (nonlinear_arith)
            requires
                n < 9_007_199_254_740_992 * p,
                n == p * whole + n as int % p as int,
                0 <= n as int % p as int,
                p > 0,
        ;
        assert(0 <= count * p <= 9_007_199_254_740_992 * 4096) by (nonlinear_arith)
            requires
                0 <= count <= 9_007_199_254_740_992,
                1 <= p <= 4096,
        ;
    }
    count * p
}

/// A number of hundredths with two digits behind the point.
fn hundredths_text(hundredths: u128) -> (out: String)
    ensures
        out@ == with_hundredths(hundredths as int),
{
    let mut out = decimal_text(hundredths / 100);
    out.push('.');
    out.push((48 + (hundredths / 10 % 10) as u8) as char);
    out.push((48 + (hundredths % 10) as u8) as char);
    out
}

/// A size as it is shown.
pub fn format_bytes(bytes: u64) -> (out: String)
    ensures
        out@ == shown_size(bytes),
{
    let value = to_double(bytes);
    if value < 1024 {
        let mut out = decimal_text(bytes as u128);
        out.append(" ");
        out.append("B");
        return out;
    }
    let (size, name): (u128, &str) = if value < 1_048_576 {
        (1024, "KiB")
    } else if value < 1_073_741_824 {
        (1_048_576, "MiB")
    } else if value < 1_099_511_627_776 {
        (1_073_741_824, "GiB")
    } else {
        (1_099_511_627_776, "TiB")
    };
    let mut out = hundredths_text(divide_rounded(value * 100, size));
    out.append(" ");
    out.append(name);
    out
}

/// Whether a file has a progress bar of its own.
pub open spec fn gets_bar(size: Option<u64>) -> bool {
    size matches Some(size) && size >= DETAIL_BAR_THRESHOLD
}

/// Whether a file has a progress bar of its own.
pub fn has_detail_bar(size: Option<u64>) -> (r: bool)
    ensures
        r == gets_bar(size),
{
    match size {
        Some(size) => size >= DETAIL_BAR_THRESHOLD,
        None => false,
    }
}

/// What is shown while a file is downloaded.
pub fn downloading_message(completed: usize, total: usize, path: &str) -> (out: String)
    ensures
        out@ == decimal(completed as nat) + "/"@ + decimal(total as nat) + " downloading "@
            + shown_path(path@),
{
    let mut out = decimal_text(completed as u128);
    out.append("/");
    let count = decimal_text(total as u128);
    out.append(count.as_str());
    out.append(" downloading ");
    let shown = display_path(path);
    out.append(shown.as_str());
    out
}

/// What is shown when a file is done.
pub fn done_message(done: usize, total: usize, path: &str) -> (out: String)
    ensures
        out@ == decimal(done as nat) + "/"@ + decimal(total as nat) + " done "@ + shown_path(path@),
{
    let mut out = decimal_text(done as u128);
    out.append("/");
    let count = decimal_text(total as u128);
    out.append(count.as_str());
    out.append(" done ");
    let shown = display_path(path);
    out.append(shown.as_str());
    out
}

/// What is shown when a repository has another id at its source than the one that was
/// asked for.
pub open spec fn notice_text(requested: Seq<char>, found: Seq<char>) -> Option<Seq<char>> {
    if requested == found {
        None
    } else {
        Some("Mapped repo id: "@ + requested + " -> "@ + found)
    }
}

/// What is shown when a repository has another id at its source than the one that was
/// asked for.
pub fn mapped_notice(model: &ResolvedModel) -> (r: Option<String>)
    ensures
        text_of(r) == notice_text(model@.requested_id, model@.source_id),
{
    if crate::text::same_text(model.requested_id.as_str(), model.source_id.as_str()) {
        return None;
    }
    let mut out = "Mapped repo id: ".to_owned();
    out.append(model.requested_id.as_str());
    out.append(" -> ");
    out.append(model.source_id.as_str());
    Some(out)
}

/// The first line of the summary of a download.
pub open spec fn summary_head(
    source: SourceKind,
    kind: crate::source::RepoType,
    id: Seq<char>,
) -> Seq<char> {
    "mget "@ + source.label_text() + " "@ + kind.label_text() + "  "@ + id
}

/// The second line of the summary of a download.
pub open spec fn summary_size(files: nat, size: u64, root: Seq<char>) -> Seq<char> {
    "files: "@ + decimal(files) + "  size: "@ + shown_size(size) + "  target: "@ + root
}

/// The summary of a download, line by line.
pub fn download_summary(
    model: &ResolvedModel,
    source: SourceKind,
    files: usize,
    size: u64,
    root: &str,
) -> (out: Vec<String>)
    ensures
        texts(out@) == seq![
            summary_head(source, model@.repo_type, model@.source_id),
            summary_size(files as nat, size, root@),
        ],
{
    let mut head = "mget ".to_owned();
    head.append(source.label());
    head.append(" ");
    head.append(model.repo_type.label());
    head.append("  ");
    head.append(model.source_id.as_str());
    let mut line = "files: ".to_owned();
    let count = decimal_text(files as u128);
    line.append(count.as_str());
    line.append("  size: ");
    let shown = format_bytes(size);
    line.append(shown.as_str());
    line.append("  target: ");
    line.append(root);
    let mut out: Vec<String> = Vec::new();
    out.push(head);
    out.push(line);
    assert(texts(out@) =~= seq![
        summary_head(source, model@.repo_type, model@.source_id),
        summary_size(files as nat, size, root@),
    ]);
    out
}

/// What is shown at the end of a download.
pub fn finished_message(root: &str) -> (out: String)
    ensures
        out@ == "Done: "@ + root@,
{
    let mut out = "Done: ".to_owned();
    out.append(root);
    out
}

/// A path of at most 42 characters is shown whole; a longer one by an ellipsis and its last 41
/// characters.
pub proof fn long_paths_are_shown_by_their_end(path: Seq<char>, start: Seq<char>, end: Seq<char>)
    ensures
        path.len() <= 42 ==> shown_path(path) == path,
        end.len() == 41 && start.len() > 1 ==> shown_path(start + end) == seq!['…'] + end,
{
    reveal_strlit("…");
    assert("…"@ =~= seq!['…']);
    if end.len() == 41 && start.len() > 1 {
        assert((start + end).skip(start.len() as int) =~= end);
    }
}

/// Rounding goes to a nearest whole number.
proof fn lemma_rounded(a: int, b: int)
    requires
        a >= 0,
        b > 0,
    ensures
        2 * (rounded(a, b) * b - a) <= b,
        2 * (a - rounded(a, b) * b) <= b,
{
    vstd::arithmetic::div_mod::lemma_fundamental_div_mod(a, b);
    vstd::arithmetic::div_mod::lemma_mod_bound(a, b);
    let q = a / b;
    assert((q + 1) * b == q * b + b) by (nonlinear_arith);
    assert(b * q == q * b) by (nonlinear_arith);
}

/// Up to 2^53 every size is a number of double precision.
proof fn lemma_exact_double(n: int)
    requires
        0 <= n < 9_007_199_254_740_992,
    ensures
        nearest_double(n) == n,
{
    assert(spacing(n, 1) == 1);
    assert(n / 1 == n && n % 1 == 0);
}

/// A size below 1024 bytes is shown in bytes. A larger one, as long as it is a number of double
/// precision, is shown in the largest of the four units that it reaches, by a number of
/// hundredths that is not further from it than half of one.
pub proof fn sizes_are_shown_to_the_nearest_hundredth(bytes: u64) -> (h: int)
    requires
        bytes < 9_007_199_254_740_992,
    ensures
        bytes < 1024 ==> shown_size(bytes) == decimal(bytes as nat) + " "@ + "B"@,
        1024 <= bytes < 1024 * 1024 ==> {
            &&& shown_size(bytes) == with_hundredths(h) + " "@ + "KiB"@
            &&& -1024 <= 2 * (h * 1024 - 100 * bytes) <= 1024
        },
        1024 * 1024 <= bytes < 1024 * 1024 * 1024 ==> {
            &&& shown_size(bytes) == with_hundredths(h) + " "@ + "MiB"@
            &&& -1024 * 1024 <= 2 * (h * 1_048_576 - 100 * bytes) <= 1024 * 1024
        },
        1_073_741_824 <= bytes < 1_099_511_627_776 ==> {
            &&& shown_size(bytes) == with_hundredths(h) + " "@ + "GiB"@
            &&& -1_073_741_824 <= 2 * (h * 1_073_741_824 - 100 * bytes) <= 1_073_741_824
        },
        1_099_511_627_776 <= bytes ==> {
            &&& shown_size(bytes) == with_hundredths(h) + " "@ + "TiB"@
            &&& -1_099_511_627_776 <= 2 * (h * 1_099_511_627_776 - 100 * bytes)
                <= 1_099_511_627_776
        },
{
    lemma_exact_double(bytes as int);
    let unit = unit_of(bytes as int);
    lemma_rounded(100 * bytes as int, unit_bytes(unit));
    assert(100 * bytes == bytes * 100);
    rounded(100 * bytes as int, unit_bytes(unit))
}

/// A number of hundredths is shown with a point before its last two digits: read without the
/// point it is that number.
pub proof fn hundredths_stand_behind_the_point(h: int)
    requires
        h >= 0,
    ensures
        ({
            let text = with_hundredths(h);
            let n = text.len() as int;
            &&& n >= 4
            &&& text[n - 3] == '.'
            &&& all_digits(text.take(n - 3))
            &&& is_digit(text[n - 2])
            &&& is_digit(text[n - 1])
            &&& digits_value(text.take(n - 3)) * 100 + (text[n - 2] as int - 48) * 10 + (text[n - 1]
                as int - 48) == h
        }),
{
    let text = with_hundredths(h);
    let n = text.len() as int;
    lemma_decimal_digits((h / 100) as nat);
    assert(text.take(n - 3) =~= decimal((h / 100) as nat));
    assert(h == (h / 100) * 100 + (h / 10 % 10) * 10 + h % 10);
}

/// A file has a bar of its own from 8 MiB on, where its size is known.
pub proof fn large_files_get_a_bar(size: u64)
    ensures
        gets_bar(Some(size)) <==> size >= 8 * 1024 * 1024,
        !gets_bar(None),
{
}

/// A notice is shown exactly if the two ids differ, and it names both.
pub proof fn other_ids_are_noticed(requested: Seq<char>, found: Seq<char>)
    ensures
        notice_text(requested, found) is None <==> requested == found,
        notice_text(requested, found) matches Some(text) ==> exists|start: Seq<char>|
            text == #[trigger] (start + requested) + " -> "@ + found,
{
    if requested != found {
        assert(notice_text(requested, found) == Some(
            ("Mapped repo id: "@ + requested) + " -> "@ + found,
        ));
    }
}

/// The lines of a summary name the repository, the number of files, their size and the target.
pub proof fn summaries_name_the_download(
    source: SourceKind,
    kind: crate::source::RepoType,
    id: Seq<char>,
    files: nat,
    size: u64,
    root: Seq<char>,
)
    ensures
        summary_head(source, kind, id) == summary_head(source, kind, Seq::empty()) + id,
        summary_head(source, kind, Seq::empty()) == "mget "@ + source.label_text() + " "@
            + kind.label_text() + "  "@,
        summary_size(files, size, root) == "files: "@ + decimal(files) + "  size: "@ + shown_size(
            size,
        ) + "  target: "@ + root,
{
    assert(summary_head(source, kind, Seq::empty()) + id =~= summary_head(source, kind, id));
    assert("  "@ + Seq::<char>::empty() =~= "  "@);
    assert(summary_head(source, kind, Seq::empty()) =~= "mget "@ + source.label_text() + " "@
        + kind.label_text() + "  "@);
}

/// Rounding goes to the nearest whole number, and to the even one where two are equally near.
pub proof fn halves_are_rounded_to_even(a: int, b: int)
    requires
        a >= 0,
        b > 0,
    ensures
        -b <= 2 * (rounded(a, b) * b - a) <= b,
        2 * (rounded(a, b) * b - a) == b || 2 * (rounded(a, b) * b - a) == -b ==> rounded(a, b) % 2
            == 0,
{
    lemma_rounded(a, b);
    vstd::arithmetic::div_mod::lemma_fundamental_div_mod(a, b);
    vstd::arithmetic::div_mod::lemma_mod_bound(a, b);
    let q = a / b;
    assert((q + 1) * b == q * b + b) by (nonlinear_arith);
    assert(b * q == q * b) by (nonlinear_arith);
}

/// The distance of neighbouring doubles is the smallest power of two that is large enough.
proof fn lemma_spacing(n: int, p: int) -> (k: nat)
    requires
        n >= 0,
        p > 0,
    ensures
        spacing(n, p) == p * vstd::arithmetic::power2::pow2(k),
        n < 9_007_199_254_740_992 * spacing(n, p),
        k > 0 ==> 2 * n >= 9_007_199_254_740_992 * spacing(n, p),
    decreases n - p,
{
    vstd::arithmetic::power2::lemma2_to64();
    if n < 9_007_199_254_740_992 * p {
        0
    } else {
        let k = lemma_spacing(n, 2 * p);
        vstd::arithmetic::power2::lemma_pow2_unfold((k + 1) as nat);
        let (big, small) = (
            vstd::arithmetic::power2::pow2((k + 1) as nat) as int,
            vstd::arithmetic::power2::pow2(k) as int,
        );
        assert(p * big == 2 * p * small) by (nonlinear_arith)
            requires
                big == 2 * small,
        ;
        if k == 0 {
            assert(2 * p * small == 2 * p) by (nonlinear_arith)
                requires
                    small == 1,
            ;
        }
        k + 1
    }
}

/// The nearest number of double precision is one of 53 binary digits and a power of two, and it
/// is no further from the size than half of the distance to the next such number.
pub proof fn doubles_have_53_digits(n: int) -> (k: nat)
    requires
        n >= 0,
    ensures
        nearest_double(n) == rounded(n, spacing(n, 1)) * spacing(n, 1),
        spacing(n, 1) == vstd::arithmetic::power2::pow2(k),
        n < 9_007_199_254_740_992 * spacing(n, 1),
        k > 0 ==> 2 * n >= 9_007_199_254_740_992 * spacing(n, 1),
        -spacing(n, 1) <= 2 * (nearest_double(n) - n) <= spacing(n, 1),
{
    let k = lemma_spacing(n, 1);
    vstd::arithmetic::power2::lemma_pow2_pos(k);
    halves_are_rounded_to_even(n, spacing(n, 1));
    k
}

} // verus!
