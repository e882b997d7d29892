//! Text helpers: strings seen as sequences of characters.

use vstd::prelude::*;

verus! {

/// `String::push` appends one character to the string.
pub assume_specification[ String::push ](s: &mut String, ch: char)
    ensures
        final(s)@ == old(s)@.push(ch),
;

/// The text of an optional string.
pub open spec fn text_of(text: Option<String>) -> Option<Seq<char>> {
    match text {
        Some(s) => Some(s@),
        None => None,
    }
}

/// The text of an optional string slice.
pub open spec fn slice_text_of(text: Option<&str>) -> Option<Seq<char>> {
    match text {
        Some(s) => Some(s@),
        None => None,
    }
}

/// The texts of a list of strings.
pub open spec fn texts(list: Seq<String>) -> Seq<Seq<char>> {
    Seq::new(list.len(), |i: int| list[i]@)
}

/// The position of the first `ch` in `s`, or the length of `s` when there is none.
pub open spec fn first_index(s: Seq<char>, ch: char) -> int
    decreases s.len(),
{
    if s.len() == 0 || s[0] == ch {
        0
    } else {
        1 + first_index(s.drop_first(), ch)
    }
}

/// The position of the last `ch` in `s`, or -1 when there is none.
pub open spec fn last_index(s: Seq<char>, ch: char) -> int
    decreases s.len(),
{
    if s.len() == 0 {
        -1
    } else if s.last() == ch {
        s.len() - 1
    } else {
        last_index(s.drop_last(), ch)
    }
}

/// The pieces of `s` between the occurrences of `sep`, in order; always at least one.
pub open spec fn split(s: Seq<char>, sep: char) -> Seq<Seq<char>>
    decreases s.len(),
{
    let i = first_index(s, sep);
    if i < s.len() {
        proof {
            lemma_first_index(s, sep);
        }
        seq![s.take(i)] + split(s.skip(i + 1), sep)
    } else {
        seq![s]
    }
}

/// The parts one after the other, with `sep` between neighbours.
pub open spec fn join(parts: Seq<Seq<char>>, sep: Seq<char>) -> Seq<char>
    decreases parts.len(),
{
    if parts.len() == 0 {
        Seq::empty()
    } else if parts.len() == 1 {
        parts[0]
    } else {
        join(parts.drop_last(), sep) + sep + parts.last()
    }
}

/// `s` with every trailing `ch` removed.
pub open spec fn trim_end(s: Seq<char>, ch: char) -> Seq<char>
    decreases s.len(),
{
    if s.len() > 0 && s.last() == ch {
        trim_end(s.drop_last(), ch)
    } else {
        s
    }
}

/// `s` with every `ch` replaced by `with`.
pub open spec fn replace(s: Seq<char>, ch: char, with: Seq<char>) -> Seq<char>
    decreases s.len(),
{
    if s.len() == 0 {
        Seq::empty()
    } else if s.last() == ch {
        replace(s.drop_last(), ch, with) + with
    } else {
        replace(s.drop_last(), ch, with).push(s.last())
    }
}

/// Whether `s` begins with `prefix`.
pub open spec fn starts_with(s: Seq<char>, prefix: Seq<char>) -> bool {
    prefix.len() <= s.len() && s.take(prefix.len() as int) == prefix
}

/// Whether `s` ends with the character `ch`.
pub open spec fn ends_with_char(s: Seq<char>, ch: char) -> bool {
    s.len() > 0 && s.last() == ch
}

/// Lexicographic order of texts by code point.
pub open spec fn text_less(a: Seq<char>, b: Seq<char>) -> bool
    decreases a.len(),
{
    if b.len() == 0 {
        false
    } else if a.len() == 0 {
        true
    } else if a[0] != b[0] {
        (a[0] as int) < (b[0] as int)
    } else {
        text_less(a.drop_first(), b.drop_first())
    }
}

/// An ASCII upper-case letter in lower case; any other character as it is.
pub open spec fn ascii_lower(ch: char) -> char {
    if 65 <= ch as int <= 90 {
        (ch as int + 32) as char
    } else {
        ch
    }
}

/// Whether two texts are equal up to the case of ASCII letters.
pub open spec fn same_ignoring_case(a: Seq<char>, b: Seq<char>) -> bool {
    &&& a.len() == b.len()
    &&& forall|i: int| 0 <= i < a.len() ==> #[trigger] ascii_lower(a[i]) == ascii_lower(b[i])
}

/// The characters with the Unicode property White_Space.
pub open spec fn is_white_space(ch: char) -> bool {
    let c = ch as int;
    ||| 0x09 <= c <= 0x0d
    ||| c == 0x20
    ||| c == 0x85
    ||| c == 0xa0
    ||| c == 0x1680
    ||| 0x2000 <= c <= 0x200a
    ||| c == 0x2028
    ||| c == 0x2029
    ||| c == 0x202f
    ||| c == 0x205f
    ||| c == 0x3000
}

/// Whether a text is empty or made of white space only.
pub open spec fn is_blank(s: Seq<char>) -> bool {
    forall|i: int| 0 <= i < s.len() ==> is_white_space(#[trigger] s[i])
}

/// `first_index` is the first position that holds the character.
pub proof fn lemma_first_index(s: Seq<char>, ch: char)
    ensures
        0 <= first_index(s, ch) <= s.len(),
        forall|j: int| 0 <= j < first_index(s, ch) ==> s[j] != ch,
        first_index(s, ch) < s.len() ==> s[first_index(s, ch)] == ch,
    decreases s.len(),
{
    if s.len() > 0 && s[0] != ch {
        lemma_first_index(s.drop_first(), ch);
        assert forall|j: int| 0 <= j < first_index(s, ch) implies s[j] != ch by {
            if j > 0 {
                assert(s.drop_first()[j - 1] == s[j]);
            }
        }
    }
}

/// A position that holds the character, with none before it, is the first one.
pub proof fn lemma_first_index_is(s: Seq<char>, ch: char, i: int)
    requires
        0 <= i <= s.len(),
        forall|j: int| 0 <= j < i ==> s[j] != ch,
        i < s.len() ==> s[i] == ch,
    ensures
        first_index(s, ch) == i,
{
    lemma_first_index(s, ch);
}

/// `last_index` is the last position that holds the character.
pub proof fn lemma_last_index(s: Seq<char>, ch: char)
    ensures
        -1 <= last_index(s, ch) < s.len(),
        forall|j: int| last_index(s, ch) < j < s.len() ==> s[j] != ch,
        0 <= last_index(s, ch) ==> s[last_index(s, ch)] == ch,
    decreases s.len(),
{
    if s.len() > 0 && s.last() != ch {
        lemma_last_index(s.drop_last(), ch);
        assert forall|j: int| last_index(s, ch) < j < s.len() implies s[j] != ch by {
            if j < s.len() - 1 {
                assert(s.drop_last()[j] == s[j]);
            }
        }
    }
}

/// No text comes before itself.
pub proof fn lemma_text_less_irreflexive(a: Seq<char>)
    ensures
        !text_less(a, a),
    decreases a.len(),
{
    if a.len() > 0 {
        lemma_text_less_irreflexive(a.drop_first());
    }
}

/// The order of texts is transitive.
pub proof fn lemma_text_less_transitive(a: Seq<char>, b: Seq<char>, c: Seq<char>)
    requires
        text_less(a, b),
        text_less(b, c),
    ensures
        text_less(a, c),
    decreases a.len(),
{
    if a.len() > 0 && b.len() > 0 && c.len() > 0 && a[0] == b[0] && b[0] == c[0] {
        lemma_text_less_transitive(a.drop_first(), b.drop_first(), c.drop_first());
    }
}

/// Two texts that are not ordered either way are the same.
pub proof fn lemma_text_less_total(a: Seq<char>, b: Seq<char>)
    ensures
        text_less(a, b) || text_less(b, a) || a == b,
    decreases a.len(),
{
    if a.len() > 0 && b.len() > 0 && a[0] == b[0] {
        lemma_text_less_total(a.drop_first(), b.drop_first());
        if a.drop_first() == b.drop_first() {
            assert(a =~= seq![a[0]] + a.drop_first());
            assert(b =~= seq![b[0]] + b.drop_first());
            assert(a =~= b);
        }
    } else if a.len() == 0 && b.len() == 0 {
        assert(a =~= b);
    }
}

/// Texts with a common beginning compare as what follows it.
proof fn lemma_text_less_skip(a: Seq<char>, b: Seq<char>, n: int)
    requires
        0 <= n <= a.len(),
        n <= b.len(),
        a.take(n) == b.take(n),
    ensures
        text_less(a, b) == text_less(a.skip(n), b.skip(n)),
    decreases n,
{
    if n > 0 {
        assert(a[0] == a.take(n)[0]);
        assert(b[0] == b.take(n)[0]);
        assert(a.drop_first().take(n - 1) =~= a.take(n).drop_first());
        assert(b.drop_first().take(n - 1) =~= b.take(n).drop_first());
        lemma_text_less_skip(a.drop_first(), b.drop_first(), n - 1);
        assert(a.drop_first().skip(n - 1) =~= a.skip(n));
        assert(b.drop_first().skip(n - 1) =~= b.skip(n));
    } else {
        assert(a.skip(0) =~= a);
        assert(b.skip(0) =~= b);
    }
}

/// Splitting at a character and joining with it gives the text back.
pub proof fn lemma_join_split(s: Seq<char>, sep: char)
    ensures
        split(s, sep).len() >= 1,
        join(split(s, sep), seq![sep]) == s,
    decreases s.len(),
{
    lemma_first_index(s, sep);
    let i = first_index(s, sep);
    if i < s.len() {
        let rest = split(s.skip(i + 1), sep);
        lemma_join_split(s.skip(i + 1), sep);
        lemma_join_cons(s.take(i), rest, seq![sep]);
        assert(s.take(i) + seq![sep] + s.skip(i + 1) =~= s);
    }
}

/// Joining a list with one more part in front.
pub proof fn lemma_join_cons(head: Seq<char>, rest: Seq<Seq<char>>, sep: Seq<char>)
    requires
        rest.len() >= 1,
    ensures
        join(seq![head] + rest, sep) == head + sep + join(rest, sep),
    decreases rest.len(),
{
    let all = seq![head] + rest;
    if rest.len() == 1 {
        assert(all.drop_last() =~= seq![head]);
        assert(join(seq![head], sep) == head);
    } else {
        assert(all.drop_last() =~= seq![head] + rest.drop_last());
        lemma_join_cons(head, rest.drop_last(), sep);
        assert(join(all, sep) =~= head + sep + join(rest, sep));
    }
}

/// No piece of a split text holds the separator.
pub proof fn lemma_split_pieces(s: Seq<char>, sep: char)
    ensures
        forall|k: int, j: int|
            0 <= k < split(s, sep).len() && 0 <= j < split(s, sep)[k].len()
                ==> #[trigger] split(s, sep)[k][j] != sep,
    decreases s.len(),
{
    lemma_first_index(s, sep);
    let i = first_index(s, sep);
    if i < s.len() {
        lemma_split_pieces(s.skip(i + 1), sep);
        let rest = split(s.skip(i + 1), sep);
        assert forall|k: int, j: int|
            0 <= k < split(s, sep).len() && 0 <= j < split(s, sep)[k].len() implies
            #[trigger] split(s, sep)[k][j] != sep by {
            if k > 0 {
                assert(split(s, sep)[k] == rest[k - 1]);
            }
        }
    }
}

/// Splitting two texts with a separator between them splits each of them.
pub proof fn lemma_split_concat(a: Seq<char>, b: Seq<char>, sep: char)
    ensures
        split(a.push(sep) + b, sep) == split(a, sep) + split(b, sep),
    decreases a.len(),
{
    let whole = a.push(sep) + b;
    lemma_first_index(a, sep);
    let i = first_index(a, sep);
    assert forall|j: int| 0 <= j < i implies whole[j] != sep by {
        assert(whole[j] == a[j]);
    }
    lemma_first_index_is(whole, sep, i);
    if i < a.len() {
        lemma_split_concat(a.skip(i + 1), b, sep);
        assert(whole.take(i) =~= a.take(i));
        assert(whole.skip(i + 1) =~= a.skip(i + 1).push(sep) + b);
        assert(split(whole, sep) =~= split(a, sep) + split(b, sep));
    } else {
        assert(whole.take(i) =~= a);
        assert(whole.skip(i + 1) =~= b);
    }
}

/// Joining parts without the separator in them and splitting gives the parts back.
pub proof fn lemma_split_join(parts: Seq<Seq<char>>, sep: char)
    requires
        parts.len() >= 1,
        forall|k: int| 0 <= k < parts.len() ==> !(#[trigger] parts[k]).contains(sep),
    ensures
        split(join(parts, seq![sep]), sep) == parts,
    decreases parts.len(),
{
    let last = parts.last();
    assert(!parts[parts.len() - 1].contains(sep));
    assert forall|j: int| 0 <= j < last.len() implies last[j] != sep by {
        assert(last.contains(last[j]));
    }
    lemma_first_index_is(last, sep, last.len() as int);
    assert(split(last, sep) =~= seq![last]);
    if parts.len() == 1 {
        assert(parts =~= seq![last]);
    } else {
        let before = parts.drop_last();
        assert forall|k: int| 0 <= k < before.len() implies !(#[trigger] before[k]).contains(sep) by {
            assert(before[k] == parts[k]);
        }
        lemma_split_join(before, sep);
        let start = join(before, seq![sep]);
        assert(start + seq![sep] + last =~= start.push(sep) + last);
        lemma_split_concat(start, last, sep);
        assert(before + seq![last] =~= parts);
    }
}

/// The characters of a string, in order.
pub fn chars_of(s: &str) -> (out: Vec<char>)
    ensures
        out@ == s@,
{
    let mut out: Vec<char> = Vec::new();
    for ch in it: s.chars()
        invariant
            out@ == it.seq().take(it.index() as int),
            it.seq() == s@,
    {
        out.push(ch);
    }
    out
}

/// The characters from position `from` up to `to`, as a string.
pub fn substring(chars: &Vec<char>, from: usize, to: usize) -> (out: String)
    requires
        from <= to <= chars@.len(),
    ensures
        out@ == chars@.subrange(from as int, to as int),
{
    let mut out = String::new();
    let mut i: usize = from;
    while i < to
        invariant
            from <= i <= to <= chars@.len(),
            out@ == chars@.subrange(from as int, i as int),
        decreases to - i,
    {
        out.push(chars[i]);
        i += 1;
    }
    out
}

/// Whether two strings hold the same characters.
pub fn same_text(a: &str, b: &str) -> (r: bool)
    ensures
        r == (a@ == b@),
{
    let mut x = a.chars();
    let mut y = b.chars();
    let ghost mut n: int = 0;
    loop
        invariant
            0 <= n <= a@.len(),
            n <= b@.len(),
            a@.take(n) == b@.take(n),
            vstd::std_specs::iter::IteratorSpec::remaining(&x) == a@.skip(n),
            vstd::std_specs::iter::IteratorSpec::remaining(&y) == b@.skip(n),
        decreases a@.len() - n,
    {
        match (x.next(), y.next()) {
            (Some(p), Some(q)) => {
                assert(p == a@[n] && q == b@[n]);
                if p != q {
                    return false;
                }
                proof {
                    n = n + 1;
                }
            },
            (None, None) => {
                assert(a@.take(n) == a@);
                assert(b@.take(n) == b@);
                return true;
            },
            _ => {
                return false;
            },
        }
    }
}

/// Whether `a` comes before `b` in the order of code points.
pub fn comes_before(a: &str, b: &str) -> (r: bool)
    ensures
        r == text_less(a@, b@),
{
    let mut x = a.chars();
    let mut y = b.chars();
    let ghost mut n: int = 0;
    loop
        invariant
            0 <= n <= a@.len(),
            n <= b@.len(),
            a@.take(n) == b@.take(n),
            vstd::std_specs::iter::IteratorSpec::remaining(&x) == a@.skip(n),
            vstd::std_specs::iter::IteratorSpec::remaining(&y) == b@.skip(n),
        decreases a@.len() - n,
    {
        proof {
            lemma_text_less_skip(a@, b@, n);
        }
        match (x.next(), y.next()) {
            (Some(p), Some(q)) => {
                assert(p == a@[n] && q == b@[n]);
                if p != q {
                    return p < q;
                }
                proof {
                    n = n + 1;
                }
            },
            (None, Some(_)) => {
                return true;
            },
            _ => {
                return false;
            },
        }
    }
}

/// One character in ASCII lower case.
pub fn to_ascii_lower(ch: char) -> (r: char)
    ensures
        r == ascii_lower(ch),
{
    if 'A' <= ch && ch <= 'Z' {
        ((ch as u8) + 32) as char
    } else {
        ch
    }
}

/// Whether two strings are equal up to the case of ASCII letters.
pub fn eq_ignore_case(a: &str, b: &str) -> (r: bool)
    ensures
        r == same_ignoring_case(a@, b@),
{
    let mut x = a.chars();
    let mut y = b.chars();
    let ghost mut n: int = 0;
    loop
        invariant
            0 <= n <= a@.len(),
            n <= b@.len(),
            forall|i: int| 0 <= i < n ==> #[trigger] ascii_lower(a@[i]) == ascii_lower(b@[i]),
            vstd::std_specs::iter::IteratorSpec::remaining(&x) == a@.skip(n),
            vstd::std_specs::iter::IteratorSpec::remaining(&y) == b@.skip(n),
        decreases a@.len() - n,
    {
        match (x.next(), y.next()) {
            (Some(p), Some(q)) => {
                assert(p == a@[n] && q == b@[n]);
                if to_ascii_lower(p) != to_ascii_lower(q) {
                    assert(ascii_lower(a@[n]) != ascii_lower(b@[n]));
                    return false;
                }
                proof {
                    n = n + 1;
                }
            },
            (None, None) => {
                return true;
            },
            _ => {
                return false;
            },
        }
    }
}

/// Whether a string holds the character `ch`.
pub fn contains_char(s: &str, ch: char) -> (r: bool)
    ensures
        r == s@.contains(ch),
{
    let chars = chars_of(s);
    let mut i: usize = 0;
    while i < chars.len()
        invariant
            i <= chars.len(),
            chars@ == s@,
            forall|j: int| 0 <= j < i ==> s@[j] != ch,
        decreases chars.len() - i,
    {
        if chars[i] == ch {
            assert(s@[i as int] == ch);
            return true;
        }
        i += 1;
    }
    false
}

/// Whether the last character of a string is `ch`.
pub fn has_last_char(s: &str, ch: char) -> (r: bool)
    ensures
        r == ends_with_char(s@, ch),
{
    let chars = chars_of(s);
    chars.len() > 0 && chars[chars.len() - 1] == ch
}

/// Whether a string is empty or made of white space only.
pub fn is_blank_text(s: &str) -> (r: bool)
    ensures
        r == is_blank(s@),
{
    let chars = chars_of(s);
    let mut i: usize = 0;
    while i < chars.len()
        invariant
            i <= chars.len(),
            chars@ == s@,
            forall|j: int| 0 <= j < i ==> is_white_space(#[trigger] s@[j]),
        decreases chars.len() - i,
    {
        if !is_space(chars[i]) {
            assert(!is_white_space(s@[i as int]));
            return false;
        }
        i += 1;
    }
    true
}

/// Whether a character has the Unicode property White_Space.
fn is_space(c: char) -> (r: bool)
    ensures
        r == is_white_space(c),
{
    ('\u{9}' <= c && c <= '\u{d}') || c == '\u{20}' || c == '\u{85}' || c == '\u{a0}' || c
        == '\u{1680}' || ('\u{2000}' <= c && c <= '\u{200a}') || c == '\u{2028}' || c == '\u{2029}'
        || c == '\u{202f}' || c == '\u{205f}' || c == '\u{3000}'
}

/// What follows `prefix` at the beginning of a string, if it is there.
pub fn strip_prefix(s: &str, prefix: &str) -> (r: Option<String>)
    ensures
        match r {
            Some(rest) => starts_with(s@, prefix@) && rest@ == s@.skip(prefix@.len() as int),
            None => !starts_with(s@, prefix@),
        },
{
    let chars = chars_of(s);
    let wanted = chars_of(prefix);
    if wanted.len() > chars.len() {
        return None;
    }
    let mut i: usize = 0;
    while i < wanted.len()
        invariant
            i <= wanted.len() <= chars.len(),
            chars@ == s@,
            wanted@ == prefix@,
            s@.take(i as int) == prefix@.take(i as int),
        decreases wanted.len() - i,
    {
        if chars[i] != wanted[i] {
            assert(s@.take(prefix@.len() as int)[i as int] != prefix@[i as int]);
            return None;
        }
        i += 1;
    }
    assert(prefix@.take(i as int) == prefix@);
    assert(s@.skip(i as int) == s@.subrange(i as int, s@.len() as int));
    Some(substring(&chars, wanted.len(), chars.len()))
}

/// The position of the first `ch` at or after `from`, or the number of characters.
pub fn find_from(chars: &Vec<char>, ch: char, from: usize) -> (i: usize)
    requires
        from <= chars@.len(),
    ensures
        i == from + first_index(chars@.skip(from as int), ch),
        from <= i <= chars@.len(),
{
    let mut i: usize = from;
    let ghost tail = chars@.skip(from as int);
    while i < chars.len() && chars[i] != ch
        invariant
            from <= i <= chars.len(),
            tail == chars@.skip(from as int),
            forall|j: int| 0 <= j < i - from ==> tail[j] != ch,
        decreases chars.len() - i,
    {
        i += 1;
    }
    proof {
        lemma_first_index_is(tail, ch, i - from);
    }
    i
}

/// The position of the last `ch`, if there is one.
pub fn find_last(chars: &Vec<char>, ch: char) -> (r: Option<usize>)
    ensures
        r == (if last_index(chars@, ch) < 0 {
            None::<usize>
        } else {
            Some(last_index(chars@, ch) as usize)
        }),
        r matches Some(i) ==> i == last_index(chars@, ch) && i < chars.len(),
{
    let mut end: usize = chars.len();
    assert(chars@.take(end as int) == chars@);
    while end > 0
        invariant
            end <= chars.len(),
            last_index(chars@, ch) == last_index(chars@.take(end as int), ch),
        decreases end,
    {
        assert(chars@.take(end as int).drop_last() == chars@.take(end - 1));
        if chars[end - 1] == ch {
            return Some(end - 1);
        }
        end -= 1;
    }
    None
}

/// What stands before and after the first `ch` of a text.
pub open spec fn cut_at_first(s: Seq<char>, ch: char) -> Option<(Seq<char>, Seq<char>)> {
    let i = first_index(s, ch);
    if i < s.len() {
        Some((s.take(i), s.skip(i + 1)))
    } else {
        None
    }
}

/// What stands before and after the first `ch`.
pub fn split_once(s: &str, ch: char) -> (r: Option<(String, String)>)
    ensures
        match r {
            Some((before, after)) => cut_at_first(s@, ch) == Some((before@, after@)),
            None => cut_at_first(s@, ch) is None,
        },
{
    let chars = chars_of(s);
    let i = find_from(&chars, ch, 0);
    assert(chars@.skip(0) == s@);
    if i < chars.len() {
        let before = substring(&chars, 0, i);
        let after = substring(&chars, i + 1, chars.len());
        assert(before@ == s@.take(i as int));
        assert(after@ == s@.skip(i + 1));
        Some((before, after))
    } else {
        None
    }
}

/// What stands after the last `ch` of a text.
pub open spec fn after_last(s: Seq<char>, ch: char) -> Option<Seq<char>> {
    if last_index(s, ch) < 0 {
        None
    } else {
        Some(s.skip(last_index(s, ch) + 1))
    }
}

/// What stands after the last `ch`.
pub fn split_after_last(s: &str, ch: char) -> (r: Option<String>)
    ensures
        text_of(r) == after_last(s@, ch),
{
    let chars = chars_of(s);
    match find_last(&chars, ch) {
        Some(i) => {
            let after = substring(&chars, i + 1, chars.len());
            assert(after@ == s@.skip(i + 1));
            Some(after)
        },
        None => None,
    }
}

/// The pieces of a string between the occurrences of `sep`.
pub fn split_text(s: &str, sep: char) -> (out: Vec<String>)
    ensures
        texts(out@) == split(s@, sep),
{
    let chars = chars_of(s);
    let mut out: Vec<String> = Vec::new();
    let mut start: usize = 0;
    assert(chars@.skip(0) == s@);
    assert(texts(out@) + split(s@, sep) == split(s@, sep));
    loop
        invariant
            start <= chars.len(),
            chars@ == s@,
            texts(out@) + split(s@.skip(start as int), sep) == split(s@, sep),
        decreases chars.len() - start,
    {
        let ghost rest = s@.skip(start as int);
        let ghost before = texts(out@);
        let end = find_from(&chars, sep, start);
        let piece = substring(&chars, start, end);
        assert(piece@ == rest.take(end - start));
        out.push(piece);
        assert(texts(out@) == before.push(piece@));
        if end < chars.len() {
            assert(rest.skip(end - start + 1) == s@.skip(end + 1));
            assert(before + (seq![piece@] + split(s@.skip(end + 1), sep)) == before.push(piece@)
                + split(s@.skip(end + 1), sep));
            start = end + 1;
        } else {
            assert(piece@ == rest);
            assert(before + seq![rest] == before.push(rest));
            return out;
        }
    }
}

/// The parts one after the other, with `sep` between neighbours.
pub fn join_texts(parts: &Vec<String>, sep: &str) -> (out: String)
    ensures
        out@ == join(texts(parts@), sep@),
{
    let mut out = String::new();
    let ghost all = texts(parts@);
    let mut i: usize = 0;
    while i < parts.len()
        invariant
            i <= parts.len(),
            all == texts(parts@),
            out@ == join(all.take(i as int), sep@),
        decreases parts.len() - i,
    {
        if i > 0 {
            out.append(sep);
        }
        out.append(parts[i].as_str());
        proof {
            let now = all.take(i + 1);
            assert(now.drop_last() == all.take(i as int));
            assert(now.last() == parts@[i as int]@);
        }
        i += 1;
    }
    assert(all.take(i as int) == all);
    out
}

/// A string without its trailing `ch` characters.
pub fn without_trailing(s: &str, ch: char) -> (out: String)
    ensures
        out@ == trim_end(s@, ch),
{
    let chars = chars_of(s);
    let mut end: usize = chars.len();
    assert(s@.take(end as int) == s@);
    while end > 0 && chars[end - 1] == ch
        invariant
            end <= chars.len(),
            chars@ == s@,
            trim_end(s@.take(end as int), ch) == trim_end(s@, ch),
        decreases end,
    {
        assert(s@.take(end as int).drop_last() == s@.take(end - 1));
        end -= 1;
    }
    assert(s@.take(end as int) == chars@.subrange(0, end as int));
    substring(&chars, 0, end)
}

/// A string with every `ch` replaced by `with`.
pub fn replace_char(s: &str, ch: char, with: &str) -> (out: String)
    ensures
        out@ == replace(s@, ch, with@),
{
    let chars = chars_of(s);
    let mut out = String::new();
    let mut i: usize = 0;
    while i < chars.len()
        invariant
            i <= chars.len(),
            chars@ == s@,
            out@ == replace(s@.take(i as int), ch, with@),
        decreases chars.len() - i,
    {
        assert(s@.take(i + 1).drop_last() == s@.take(i as int));
        if chars[i] == ch {
            out.append(with);
        } else {
            out.push(chars[i]);
        }
        i += 1;
    }
    assert(s@.take(i as int) == s@);
    out
}

/// A copy of an optional string.
pub fn copy_option(text: &Option<String>) -> (out: Option<String>)
    ensures
        out == *text,
{
    match text {
        Some(s) => Some(s.clone()),
        None => None,
    }
}

/// A text is cut into what stands before its first `ch` and what follows it, and only a text
/// without one is not cut.
pub proof fn cutting_is_at_the_first(s: Seq<char>, ch: char, a: Seq<char>, b: Seq<char>)
    ensures
        cut_at_first(s, ch) == Some((a, b)) <==> s == a.push(ch) + b && !a.contains(ch),
        cut_at_first(s, ch) is None <==> !s.contains(ch),
{
    lemma_first_index(s, ch);
    let i = first_index(s, ch);
    if i < s.len() {
        assert(s.contains(s[i]));
        assert(s =~= s.take(i).push(ch) + s.skip(i + 1));
        if s.take(i).contains(ch) {
            assert(s[s.take(i).index_of(ch)] == ch);
        }
    } else if s.contains(ch) {
        assert(s[s.index_of(ch)] == ch);
    }
    if s == a.push(ch) + b && !a.contains(ch) {
        assert forall|j: int| 0 <= j < a.len() implies s[j] != ch by {
            assert(a.contains(a[j]));
        }
        assert(s[a.len() as int] == ch);
        lemma_first_index_is(s, ch, a.len() as int);
        assert(s.take(a.len() as int) =~= a);
        assert(s.skip(a.len() as int + 1) =~= b);
    }
}

/// What follows the last `ch` of a text has none, and only a text without one has nothing
/// behind it.
pub proof fn the_rest_is_behind_the_last(s: Seq<char>, ch: char, a: Seq<char>, b: Seq<char>)
    ensures
        !b.contains(ch) ==> after_last(a.push(ch) + b, ch) == Some(b),
        after_last(s, ch) is None <==> !s.contains(ch),
{
    lemma_last_index(s, ch);
    if last_index(s, ch) >= 0 {
        assert(s.contains(s[last_index(s, ch)]));
    } else if s.contains(ch) {
        assert(s[s.index_of(ch)] == ch);
    }
    let whole = a.push(ch) + b;
    if !b.contains(ch) {
        lemma_last_index(whole, ch);
        assert(whole[a.len() as int] == ch);
        assert forall|j: int| a.len() < j < whole.len() implies whole[j] != ch by {
            assert(b.contains(b[j - a.len() - 1]));
        }
        assert(last_index(whole, ch) == a.len());
        assert(whole.skip(a.len() as int + 1) =~= b);
    }
}

/// A text comes before its continuations, and of two that part somewhere the one with the
/// smaller character there comes first.
pub proof fn texts_are_ordered_by_characters(
    start: Seq<char>,
    x: char,
    y: char,
    a: Seq<char>,
    b: Seq<char>,
)
    requires
        (x as int) < (y as int),
    ensures
        text_less(start, start.push(x) + a),
        !text_less(start.push(x) + a, start),
        text_less(start.push(x) + a, start.push(y) + b),
        !text_less(start.push(y) + b, start.push(x) + a),
    decreases start.len(),
{
    let (p, q) = (start.push(x) + a, start.push(y) + b);
    if start.len() > 0 {
        let rest = start.drop_first();
        assert(p.drop_first() =~= rest.push(x) + a);
        assert(q.drop_first() =~= rest.push(y) + b);
        assert(p[0] == start[0] && q[0] == start[0]);
        texts_are_ordered_by_characters(rest, x, y, a, b);
    }
}

/// Only the characters at the end go: a text that does not end in `ch` is what is left of it
/// with any number of them behind it.
pub proof fn trimming_takes_the_end(s: Seq<char>, ch: char, n: nat)
    requires
        !ends_with_char(s, ch),
    ensures
        trim_end(s + Seq::new(n, |i: int| ch), ch) == s,
    decreases n,
{
    let whole = s + Seq::new(n, |i: int| ch);
    if n == 0 {
        assert(whole =~= s);
    } else {
        trimming_takes_the_end(s, ch, (n - 1) as nat);
        assert(whole.drop_last() =~= s + Seq::new((n - 1) as nat, |i: int| ch));
    }
}

/// Replacing goes character by character: `ch` gives `with`, any other character itself.
pub proof fn replacing_goes_by_character(
    a: Seq<char>,
    b: Seq<char>,
    x: char,
    ch: char,
    with: Seq<char>,
)
    ensures
        replace(a + b, ch, with) == replace(a, ch, with) + replace(b, ch, with),
        replace(seq![ch], ch, with) == with,
        x != ch ==> replace(seq![x], ch, with) == seq![x],
    decreases b.len(),
{
    let none = Seq::<char>::empty();
    assert(replace(none, ch, with) =~= none);
    assert(seq![ch].drop_last() =~= none);
    assert(seq![x].drop_last() =~= none);
    assert(replace(seq![ch], ch, with) =~= with);
    assert(x != ch ==> replace(seq![x], ch, with) =~= seq![x]);
    if b.len() == 0 {
        assert(a + b =~= a);
        assert(replace(a, ch, with) + replace(b, ch, with) =~= replace(a, ch, with));
    } else {
        assert((a + b).drop_last() =~= a + b.drop_last());
        replacing_goes_by_character(a, b.drop_last(), x, ch, with);
        assert(replace(a + b, ch, with) =~= replace(a, ch, with) + replace(b, ch, with));
    }
}

/// Texts are the same up to case exactly if they are as long and have at each place the same
/// character or the two cases of an ASCII letter.
pub proof fn case_is_of_letters(a: Seq<char>, b: Seq<char>)
    ensures
        same_ignoring_case(a, b) <==> a.len() == b.len() && forall|i: int|
            0 <= i < a.len() ==> {
                ||| #[trigger] a[i] == b[i]
                ||| 'A' <= a[i] <= 'Z' && b[i] as int == a[i] as int + 32
                ||| 'A' <= b[i] <= 'Z' && a[i] as int == b[i] as int + 32
            },
{
    if same_ignoring_case(a, b) {
        assert forall|i: int| 0 <= i < a.len() implies {
            ||| #[trigger] a[i] == b[i]
            ||| 'A' <= a[i] <= 'Z' && b[i] as int == a[i] as int + 32
            ||| 'A' <= b[i] <= 'Z' && a[i] as int == b[i] as int + 32
        } by {
            assert(ascii_lower(a[i]) == ascii_lower(b[i]));
        }
    } else if a.len() == b.len() {
        let i = choose|i: int|
            0 <= i < a.len() && #[trigger] ascii_lower(a[i]) != ascii_lower(b[i]);
        assert(a[i] != b[i]);
    }
}

/// A text starts with another exactly if it goes on behind it.
pub proof fn starting_is_going_on(s: Seq<char>, prefix: Seq<char>)
    ensures
        starts_with(s, prefix) <==> exists|rest: Seq<char>| s == #[trigger] (prefix + rest),
{
    if starts_with(s, prefix) {
        let rest = s.skip(prefix.len() as int);
        assert(s =~= prefix + rest);
    }
    if exists|rest: Seq<char>| s == #[trigger] (prefix + rest) {
        let rest = choose|rest: Seq<char>| s == #[trigger] (prefix + rest);
        assert((prefix + rest).take(prefix.len() as int) =~= prefix);
    }
}

/// A text is blank exactly if each of its characters is white space; of ASCII that is the blank
/// and what stands from the tab to the carriage return.
pub proof fn blank_texts_are_white(a: Seq<char>, b: Seq<char>, ch: char)
    ensures
        is_blank(a + b) <==> is_blank(a) && is_blank(b),
        is_blank(seq![ch]) <==> is_white_space(ch),
        is_blank(Seq::<char>::empty()),
        ch as u32 <= 127 ==> (is_white_space(ch) <==> ch == ' ' || 9 <= ch as u32 <= 13),
{
    let whole = a + b;
    if is_blank(whole) {
        assert forall|i: int| 0 <= i < a.len() implies is_white_space(#[trigger] a[i]) by {
            assert(whole[i] == a[i]);
        }
        assert forall|i: int| 0 <= i < b.len() implies is_white_space(#[trigger] b[i]) by {
            assert(whole[a.len() + i] == b[i]);
        }
    }
    if is_blank(seq![ch]) {
        assert(is_white_space(seq![ch][0]));
    }
}

} // verus!
