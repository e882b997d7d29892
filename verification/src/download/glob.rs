//! Glob patterns of paths.

use vstd::prelude::*;

use crate::error::{Failure, MgetError};
use crate::text::{chars_of, same_text, starts_with, texts};

verus! {

/// `globset::GlobSetBuilder`, to which patterns are added.
#[verifier::external_type_specification]
#[verifier::external_body]
pub struct ExGlobSetBuilder(globset::GlobSetBuilder);

/// `globset::GlobSet`, which matches paths against patterns.
#[verifier::external_type_specification]
#[verifier::external_body]
pub struct ExGlobSet(globset::GlobSet);

/// The patterns that were added to a builder, in order.
pub uninterp spec fn builder_patterns(builder: globset::GlobSetBuilder) -> Seq<Seq<char>>;

/// Whether a builder takes `\` for a separator of paths, as some systems do, and not for
/// the escape of a special character.
pub uninterp spec fn builder_backslash(builder: globset::GlobSetBuilder) -> bool;

/// The patterns of a set, in order.
pub uninterp spec fn set_patterns(set: globset::GlobSet) -> Seq<Seq<char>>;

/// Whether a set takes `\` for a separator of paths.
pub uninterp spec fn set_backslash(set: globset::GlobSet) -> bool;

/// What is wrong with a pattern, if anything is.
pub uninterp spec fn glob_problem(pattern: Seq<char>, backslash: bool) -> Option<Seq<char>>;

/// Whether a pattern without a problem that is not plain matches a path.
pub uninterp spec fn glob_matches(pattern: Seq<char>, path: Seq<char>, backslash: bool) -> bool;

/// Whether a character stands for itself in a pattern.
pub open spec fn is_ordinary(ch: char) -> bool {
    ch != '*' && ch != '?' && ch != '[' && ch != '{' && ch != '}' && ch != '\\'
}

/// Whether every character stands for itself.
pub open spec fn all_ordinary(text: Seq<char>) -> bool {
    forall|i: int| 0 <= i < text.len() ==> is_ordinary(#[trigger] text[i])
}

/// Whether a pattern has no class, no group and no escape.
pub open spec fn is_simple(pattern: Seq<char>) -> bool {
    forall|i: int|
        0 <= i < pattern.len() ==> #[trigger] pattern[i] != '[' && pattern[i] != '{' && pattern[i]
            != '}' && pattern[i] != '\\'
}

/// Whether a pattern is an ordinary text with a `*` behind it.
pub open spec fn is_start(pattern: Seq<char>) -> bool {
    pattern.len() > 1 && pattern.last() == '*' && all_ordinary(pattern.drop_last())
}

/// Whether a pattern is an ordinary text with a `*` before it, and more than a dot or a
/// slash.
pub open spec fn is_end(pattern: Seq<char>) -> bool {
    &&& pattern.len() > 1
    &&& pattern[0] == '*'
    &&& all_ordinary(pattern.skip(1))
    &&& pattern.skip(1) != seq!['.']
    &&& pattern.skip(1) != seq!['/']
}

/// Whether a pattern is plain: an ordinary text, alone or with one `*` before or behind it.
pub open spec fn is_plain(pattern: Seq<char>) -> bool {
    (pattern.len() > 0 && all_ordinary(pattern)) || is_start(pattern) || is_end(pattern)
}

/// Whether every pattern is plain.
pub open spec fn all_plain(patterns: Seq<Seq<char>>) -> bool {
    forall|i: int| 0 <= i < patterns.len() ==> is_plain(#[trigger] patterns[i])
}

/// A path as it is matched: where `\` separates, it counts as `/`.
pub open spec fn matched_path(path: Seq<char>, backslash: bool) -> Seq<char> {
    Seq::new(
        path.len(),
        |i: int|
            if backslash && path[i] == '\\' {
                '/'
            } else {
                path[i]
            },
    )
}

/// Whether a plain pattern matches a path: a `*` stands for any text, slashes included, and
/// everything else for itself.
pub open spec fn plain_matches(pattern: Seq<char>, path: Seq<char>) -> bool {
    if is_start(pattern) {
        starts_with(path, pattern.drop_last())
    } else if is_end(pattern) {
        path.len() >= pattern.len() - 1 && path.skip(path.len() - (pattern.len() - 1))
            == pattern.skip(1)
    } else {
        path == pattern
    }
}

/// Whether a pattern without a problem matches a path.
pub open spec fn pattern_matches(pattern: Seq<char>, path: Seq<char>, backslash: bool) -> bool {
    if is_plain(pattern) {
        plain_matches(pattern, matched_path(path, backslash))
    } else {
        glob_matches(pattern, path, backslash)
    }
}

/// How many characters the patterns have together.
pub open spec fn total_chars(patterns: Seq<Seq<char>>) -> nat
    decreases patterns.len(),
{
    if patterns.len() == 0 {
        0
    } else {
        total_chars(patterns.drop_last()) + patterns.last().len()
    }
}

/// How many characters the longest pattern has.
pub open spec fn longest(patterns: Seq<Seq<char>>) -> nat
    decreases patterns.len(),
{
    if patterns.len() == 0 {
        0
    } else {
        let before = longest(patterns.drop_last());
        if patterns.last().len() > before {
            patterns.last().len()
        } else {
            before
        }
    }
}

/// A pattern without the characters that may be missing from the text it stands for.
pub open spec fn bare(pattern: Seq<char>) -> Seq<char>
    decreases pattern.len(),
{
    if pattern.len() == 0 {
        Seq::empty()
    } else {
        let before = bare(pattern.drop_last());
        let ch = pattern.last();
        if ch == '*' || ch == '/' || ch == '\\' {
            before
        } else {
            before.push(ch)
        }
    }
}

/// The patterns without those that were listed before.
pub open spec fn distinct(patterns: Seq<Seq<char>>) -> Seq<Seq<char>>
    decreases patterns.len(),
{
    if patterns.len() == 0 {
        Seq::empty()
    } else {
        let before = distinct(patterns.drop_last());
        if before.contains(patterns.last()) {
            before
        } else {
            before.push(patterns.last())
        }
    }
}

/// How many patterns are the same as a text but for `*`, `/` and `\`.
pub open spec fn alike(patterns: Seq<Seq<char>>, text: Seq<char>) -> nat
    decreases patterns.len(),
{
    if patterns.len() == 0 {
        0
    } else {
        alike(patterns.drop_last(), text) + (if bare(patterns.last()) == text {
            1nat
        } else {
            0
        })
    }
}

/// How many of `all` are the same but for `*`, `/` and `\` as one of the patterns, at most. No
/// more of them stand for the same text.
pub open spec fn most_alike(patterns: Seq<Seq<char>>, all: Seq<Seq<char>>) -> nat
    decreases patterns.len(),
{
    if patterns.len() == 0 {
        0
    } else {
        let before = most_alike(patterns.drop_last(), all);
        if alike(all, bare(patterns.last())) > before {
            alike(all, bare(patterns.last()))
        } else {
            before
        }
    }
}

/// How many patterns can end in one state of the automaton for a list of patterns: no more
/// than there are, and for each of the bytes of the longest one no more than stand for the
/// same text.
pub open spec fn crowd(patterns: Seq<Seq<char>>) -> nat {
    let few = 4 * longest(distinct(patterns)) * most_alike(patterns, patterns);
    if few < patterns.len() {
        few
    } else {
        patterns.len()
    }
}

/// Whether the automaton for a list of patterns, which has at most a state for each byte of
/// the different ones, can number its states, their transitions and their matches.
pub open spec fn fits_automaton(patterns: Seq<Seq<char>>) -> bool {
    (4 * total_chars(distinct(patterns)) + 4) * (crowd(patterns) + 256) < 0x7fff_ffff
}

/// How deeply groups may be nested in a pattern.
pub const MAX_NESTING: usize = 250;

/// What the next character of a pattern is a part of.
#[derive(Clone, Copy, Debug, PartialEq, Eq, Structural)]
pub enum Reading {
    /// Nothing but the pattern.
    Plain,
    /// An escape.
    Escape,
    /// A class that was just opened.
    ClassStart,
    /// A class that was just opened and negated: the next character is its first.
    ClassFirst,
    /// A class, behind its first character.
    Class,
}

/// What follows a character.
pub open spec fn read_on(reading: Reading, ch: char, backslash: bool) -> Reading {
    match reading {
        Reading::Plain => if ch == '[' {
            Reading::ClassStart
        } else if ch == '\\' && !backslash {
            Reading::Escape
        } else {
            Reading::Plain
        },
        Reading::Escape => Reading::Plain,
        Reading::ClassStart => if ch == '!' || ch == '^' {
            Reading::ClassFirst
        } else {
            Reading::Class
        },
        Reading::ClassFirst => Reading::Class,
        Reading::Class => if ch == ']' {
            Reading::Plain
        } else {
            Reading::Class
        },
    }
}

/// What follows a text.
pub open spec fn reading(text: Seq<char>, backslash: bool) -> Reading
    decreases text.len(),
{
    if text.len() == 0 {
        Reading::Plain
    } else {
        read_on(reading(text.drop_last(), backslash), text.last(), backslash)
    }
}

/// How many groups are open at the end of a text.
pub open spec fn open_groups(text: Seq<char>, backslash: bool) -> nat
    decreases text.len(),
{
    if text.len() == 0 {
        0
    } else {
        let open = open_groups(text.drop_last(), backslash);
        if !(reading(text.drop_last(), backslash) is Plain) {
            open
        } else if text.last() == '{' {
            open + 1
        } else if text.last() == '}' && open > 0 {
            (open - 1) as nat
        } else {
            open
        }
    }
}

/// How deeply groups are nested in a pattern: the largest number of groups that are open at any
/// place of it.
pub open spec fn nesting(pattern: Seq<char>, backslash: bool) -> nat
    decreases pattern.len(),
{
    if pattern.len() == 0 {
        0
    } else {
        let before = nesting(pattern.drop_last(), backslash);
        if open_groups(pattern, backslash) > before {
            open_groups(pattern, backslash)
        } else {
            before
        }
    }
}

/// Whether a pattern nests groups no more deeply than `depth`, whatever `\` means.
pub open spec fn is_shallow(pattern: Seq<char>, depth: int) -> bool {
    nesting(pattern, true) <= depth && nesting(pattern, false) <= depth
}

/// Whether no pattern nests groups more deeply than `depth`.
pub open spec fn all_shallow(patterns: Seq<Seq<char>>, depth: int) -> bool {
    forall|i: int| 0 <= i < patterns.len() ==> is_shallow(#[trigger] patterns[i], depth)
}

/// Whether a set can be built for a list of patterns.
pub open spec fn can_build(patterns: Seq<Seq<char>>) -> bool {
    all_shallow(patterns, MAX_NESTING as int) && fits_automaton(patterns)
}

/// How many patterns a modest list has at most.
pub const MODEST_COUNT: usize = 1_000;

/// How many characters the patterns of a modest list have together at most.
pub const MODEST_TOTAL: usize = 10_000;

/// How deeply the patterns of a modest list nest groups at most.
pub const MODEST_NESTING: usize = 75;

/// Whether a list of patterns is so short that it takes far less memory than compiling is
/// allowed, and so shallow that what it is compiled from is nested no more deeply than that
/// may be.
pub open spec fn is_modest(patterns: Seq<Seq<char>>) -> bool {
    &&& patterns.len() <= MODEST_COUNT
    &&& total_chars(patterns) <= MODEST_TOTAL
    &&& all_shallow(patterns, MODEST_NESTING as int)
}

/// Whether patterns that nothing is wrong with compile on every machine.
pub open spec fn compiles(patterns: Seq<Seq<char>>) -> bool {
    all_plain(patterns) || is_modest(patterns)
}

/// Whether no pattern has a class, a group or an escape.
pub open spec fn all_simple(patterns: Seq<Seq<char>>) -> bool {
    forall|i: int| 0 <= i < patterns.len() ==> is_simple(#[trigger] patterns[i])
}

/// Whether patterns are accepted on every machine.
pub open spec fn are_accepted(patterns: Seq<Seq<char>>) -> bool {
    all_plain(patterns) || (all_simple(patterns) && is_modest(patterns))
}

/// `globset::GlobSetBuilder::new`: a builder without patterns.
#[verifier::external_body]
pub(crate) fn new_builder() -> (r: globset::GlobSetBuilder)
    ensures
        builder_patterns(r) == Seq::<Seq<char>>::empty(),
{
    globset::GlobSetBuilder::new()
}

/// `globset::Glob::new` and `globset::GlobSetBuilder::add`: adds a pattern behind those
/// that were added before, unless there is something wrong with it. What that is depends
/// on the pattern and on what `\` means. Nothing is wrong with a pattern that has no class,
/// no group and no escape; the rest of the grammar is not said. Groups are handled by
/// recursion, so they may not be nested too deeply.
#[verifier::external_body]
pub(crate) fn add_glob(builder: &mut globset::GlobSetBuilder, pattern: &str) -> (r: Result<
    (),
    String,
>)
    requires
        nesting(pattern@, builder_backslash(*old(builder))) <= MAX_NESTING,
    ensures
        builder_backslash(*final(builder)) == builder_backslash(*old(builder)),
        is_simple(pattern@) ==> r is Ok,
        match r {
            Ok(_) => {
                &&& glob_problem(pattern@, builder_backslash(*old(builder))) is None
                &&& builder_patterns(*final(builder)) == builder_patterns(*old(builder)).push(
                    pattern@,
                )
            },
            Err(text) => {
                &&& glob_problem(pattern@, builder_backslash(*old(builder))) == Some(text@)
                &&& builder_patterns(*final(builder)) == builder_patterns(*old(builder))
            },
        },
{
    match globset::Glob::new(pattern) {
        Ok(glob) => {
            builder.add(glob);
            Ok(())
        },
        Err(error) => Err(error.to_string()),
    }
}

/// `globset::GlobSetBuilder::build`: a set of the patterns that were added. Plain patterns
/// are matched as they stand. Others are compiled to automata of a few states for each byte,
/// which may take 10 MiB, from regular expressions of three levels for each level of groups,
/// which may have 250: a modest list stays far below both on every machine. When a larger one
/// does not, which depends on the machine, and the text of that failure are not said.
#[verifier::external_body]
pub(crate) fn build_set(builder: &globset::GlobSetBuilder) -> (r: Result<globset::GlobSet, String>)
    requires
        fits_automaton(builder_patterns(*builder)),
    ensures
        compiles(builder_patterns(*builder)) ==> r is Ok,
        r matches Ok(set) ==> set_patterns(set) == builder_patterns(*builder) && set_backslash(set)
            == builder_backslash(*builder),
{
    builder.build().map_err(|error| error.to_string())
}

/// `globset::GlobSet::is_match`: whether any pattern of the set matches the path. For a plain
/// pattern that is said; for any other it depends on the pattern, the path and what `\` means.
#[verifier::external_body]
pub(crate) fn set_matches(set: &globset::GlobSet, path: &str) -> (r: bool)
    ensures
        r == (exists|i: int|
            0 <= i < set_patterns(*set).len() && if is_plain(#[trigger] set_patterns(*set)[i]) {
                plain_matches(set_patterns(*set)[i], matched_path(path@, set_backslash(*set)))
            } else {
                glob_matches(set_patterns(*set)[i], path@, set_backslash(*set))
            }),
{
    set.is_match(path)
}

/// Whether any of the patterns matches the path.
pub open spec fn any_matches(patterns: Seq<Seq<char>>, path: Seq<char>, backslash: bool) -> bool {
    exists|i: int|
        0 <= i < patterns.len() && pattern_matches(#[trigger] patterns[i], path, backslash)
}

/// What is wrong with the first pattern that something is wrong with.
pub open spec fn first_problem(patterns: Seq<Seq<char>>, backslash: bool) -> Option<Seq<char>>
    decreases patterns.len(),
{
    if patterns.len() == 0 {
        None
    } else {
        let before = first_problem(patterns.drop_last(), backslash);
        if before is Some {
            before
        } else {
            glob_problem(patterns.last(), backslash)
        }
    }
}

/// Once something is wrong with one of the first patterns, more of them change nothing.
proof fn lemma_problem_stays(patterns: Seq<Seq<char>>, n: int, backslash: bool)
    requires
        0 <= n <= patterns.len(),
        first_problem(patterns.take(n), backslash) is Some,
    ensures
        first_problem(patterns, backslash) == first_problem(patterns.take(n), backslash),
    decreases patterns.len(),
{
    if n < patterns.len() {
        let before = patterns.drop_last();
        assert(before.take(n) =~= patterns.take(n));
        lemma_problem_stays(before, n, backslash);
    } else {
        assert(patterns.take(n) =~= patterns);
    }
}

/// A plain pattern has no class, no group and no escape.
proof fn lemma_plain_is_simple(pattern: Seq<char>)
    requires
        is_plain(pattern),
    ensures
        is_simple(pattern),
{
    assert forall|i: int| 0 <= i < pattern.len() implies #[trigger] pattern[i] != '[' && pattern[i]
        != '{' && pattern[i] != '}' && pattern[i] != '\\' by {
        if all_ordinary(pattern) {
            assert(is_ordinary(pattern[i]));
        } else if is_start(pattern) {
            if i < pattern.len() - 1 {
                assert(is_ordinary(pattern.drop_last()[i]));
            }
        } else if i > 0 {
            assert(is_ordinary(pattern.skip(1)[i - 1]));
        }
    }
}

/// A pattern without a class, a group and an escape nests no groups.
pub proof fn simple_patterns_nest_nothing(pattern: Seq<char>, backslash: bool)
    requires
        is_simple(pattern),
    ensures
        nesting(pattern, backslash) == 0,
        open_groups(pattern, backslash) == 0,
    decreases pattern.len(),
{
    if pattern.len() > 0 {
        let before = pattern.drop_last();
        assert forall|i: int| 0 <= i < before.len() implies #[trigger] before[i] != '[' && before[i]
            != '{' && before[i] != '}' && before[i] != '\\' by {
            assert(before[i] == pattern[i]);
        }
        simple_patterns_nest_nothing(before, backslash);
        assert(pattern[pattern.len() - 1] != '{');
    }
}

/// What follows a character.
fn read_char(reading: Reading, ch: char, backslash: bool) -> (r: Reading)
    ensures
        r == read_on(reading, ch, backslash),
{
    match reading {
        Reading::Plain => if ch == '[' {
            Reading::ClassStart
        } else if ch == '\\' && !backslash {
            Reading::Escape
        } else {
            Reading::Plain
        },
        Reading::Escape => Reading::Plain,
        Reading::ClassStart => if ch == '!' || ch == '^' {
            Reading::ClassFirst
        } else {
            Reading::Class
        },
        Reading::ClassFirst => Reading::Class,
        Reading::Class => if ch == ']' {
            Reading::Plain
        } else {
            Reading::Class
        },
    }
}

/// How deeply groups are nested in a pattern.
fn nesting_of(chars: &Vec<char>, backslash: bool) -> (deepest: usize)
    ensures
        deepest == nesting(chars@, backslash),
{
    let mut open: usize = 0;
    let mut deepest: usize = 0;
    let mut state = Reading::Plain;
    let mut i: usize = 0;
    while i < chars.len()
        invariant
            i <= chars.len(),
            open == open_groups(chars@.take(i as int), backslash),
            deepest == nesting(chars@.take(i as int), backslash),
            state == reading(chars@.take(i as int), backslash),
            open <= i,
        decreases chars.len() - i,
    {
        let ch = chars[i];
        assert(chars@.take(i + 1).drop_last() =~= chars@.take(i as int));
        assert(chars@.take(i + 1).last() == ch);
        if let Reading::Plain = state {
            if ch == '{' {
                open = open + 1;
            } else if ch == '}' && open > 0 {
                open = open - 1;
            }
        }
        if open > deepest {
            deepest = open;
        }
        state = read_char(state, ch, backslash);
        i += 1;
    }
    assert(chars@.take(i as int) =~= chars@);
    deepest
}

/// A pattern without the characters that may be missing from the text it stands for.
fn bare_text(pattern: &str) -> (out: String)
    ensures
        out@ == bare(pattern@),
{
    let chars = chars_of(pattern);
    let mut out = String::new();
    let mut i: usize = 0;
    while i < chars.len()
        invariant
            i <= chars.len(),
            chars@ == pattern@,
            out@ == bare(pattern@.take(i as int)),
        decreases chars.len() - i,
    {
        assert(pattern@.take(i + 1).drop_last() =~= pattern@.take(i as int));
        let ch = chars[i];
        if ch != '*' && ch != '/' && ch != '\\' {
            out.push(ch);
        }
        i += 1;
    }
    assert(pattern@.take(i as int) =~= pattern@);
    out
}

/// The patterns without those that were listed before.
fn distinct_patterns(patterns: &Vec<String>) -> (out: Vec<String>)
    ensures
        texts(out@) == distinct(texts(patterns@)),
{
    let ghost all = texts(patterns@);
    let mut out: Vec<String> = Vec::new();
    let mut i: usize = 0;
    assert(texts(out@) =~= distinct(all.take(0)));
    while i < patterns.len()
        invariant
            i <= patterns.len(),
            all == texts(patterns@),
            texts(out@) == distinct(all.take(i as int)),
        decreases patterns.len() - i,
    {
        let ghost before = texts(out@);
        assert(all[i as int] == patterns@[i as int]@);
        assert(all.take(i + 1).drop_last() =~= all.take(i as int));
        let mut found = false;
        let mut j: usize = 0;
        while j < out.len() && !found
            invariant
                j <= out.len(),
                i < patterns.len(),
                before == texts(out@),
                all[i as int] == patterns@[i as int]@,
                found ==> before.contains(all[i as int]),
                !found ==> forall|k: int| 0 <= k < j ==> #[trigger] before[k] != all[i as int],
            decreases out.len() - j,
        {
            assert(before[j as int] == out@[j as int]@);
            found = same_text(out[j].as_str(), patterns[i].as_str());
            j += 1;
        }
        if !found {
            assert(!before.contains(all[i as int]));
            out.push(patterns[i].clone());
            assert(texts(out@) =~= before.push(all[i as int]));
        }
        i += 1;
    }
    assert(all.take(i as int) =~= all);
    out
}

/// How many patterns are the same as a text but for `*`, `/` and `\`, from their bare texts.
fn count_alike(bares: &Vec<String>, text: &str, Ghost(all): Ghost<Seq<Seq<char>>>) -> (n: usize)
    requires
        bares@.len() == all.len(),
        forall|k: int| 0 <= k < all.len() ==> (#[trigger] bares@[k])@ == bare(all[k]),
    ensures
        n == alike(all, text@),
        n <= bares.len(),
{
    let mut n: usize = 0;
    let mut i: usize = 0;
    while i < bares.len()
        invariant
            i <= bares.len(),
            n <= i,
            bares@.len() == all.len(),
            forall|k: int| 0 <= k < all.len() ==> (#[trigger] bares@[k])@ == bare(all[k]),
            n == alike(all.take(i as int), text@),
        decreases bares.len() - i,
    {
        assert(all.take(i + 1).drop_last() =~= all.take(i as int));
        assert(bares@[i as int]@ == bare(all[i as int]));
        if same_text(bares[i].as_str(), text) {
            n += 1;
        }
        i += 1;
    }
    assert(all.take(i as int) =~= all);
    n
}

/// How many patterns are the same but for `*`, `/` and `\`, at most.
fn count_most_alike(patterns: &Vec<String>) -> (most: usize)
    ensures
        most == most_alike(texts(patterns@), texts(patterns@)),
        most <= patterns.len(),
{
    let ghost all = texts(patterns@);
    let mut bares: Vec<String> = Vec::new();
    let mut i: usize = 0;
    while i < patterns.len()
        invariant
            i <= patterns.len(),
            all == texts(patterns@),
            bares@.len() == i,
            forall|k: int| 0 <= k < i ==> (#[trigger] bares@[k])@ == bare(all[k]),
        decreases patterns.len() - i,
    {
        assert(all[i as int] == patterns@[i as int]@);
        bares.push(bare_text(patterns[i].as_str()));
        i += 1;
    }
    let mut most: usize = 0;
    let mut j: usize = 0;
    while j < bares.len()
        invariant
            j <= bares.len(),
            bares@.len() == all.len(),
            most <= bares.len(),
            forall|k: int| 0 <= k < all.len() ==> (#[trigger] bares@[k])@ == bare(all[k]),
            most == most_alike(all.take(j as int), all),
        decreases bares.len() - j,
    {
        assert(all.take(j + 1).drop_last() =~= all.take(j as int));
        assert(bares@[j as int]@ == bare(all[j as int]));
        let n = count_alike(&bares, bares[j].as_str(), Ghost(all));
        if n > most {
            most = n;
        }
        j += 1;
    }
    assert(all.take(j as int) =~= all);
    most
}

/// So much does not fit.
proof fn lemma_too_much(states: int, crowd: int)
    requires
        states >= 0x1_0000_0000,
        crowd >= 0,
    ensures
        states * (crowd + 256) >= 0x7fff_ffff,
{
    assert(states * (crowd + 256) >= states * 1) by (nonlinear_arith)
        requires
            states >= 0,
            crowd >= 0,
    ;
}

/// Fewer states and a smaller crowd take less room.
proof fn lemma_takes_less(states: int, crowd: int, more: int, larger: int)
    requires
        0 <= states <= more,
        0 <= crowd <= larger,
    ensures
        states * (crowd + 256) <= more * (larger + 256),
{
    assert(states * (crowd + 256) <= more * (larger + 256)) by (nonlinear_arith)
        requires
            0 <= states <= more,
            0 <= crowd <= larger,
    ;
}

/// The different patterns have no more characters than all of them.
proof fn lemma_distinct_total(patterns: Seq<Seq<char>>)
    ensures
        total_chars(distinct(patterns)) <= total_chars(patterns),
    decreases patterns.len(),
{
    if patterns.len() > 0 {
        lemma_distinct_total(patterns.drop_last());
        let before = distinct(patterns.drop_last());
        assert(before.push(patterns.last()).drop_last() =~= before);
    }
}

/// The first patterns have no more characters than all of them.
proof fn lemma_total_grows(patterns: Seq<Seq<char>>, n: int)
    requires
        0 <= n <= patterns.len(),
    ensures
        total_chars(patterns.take(n)) <= total_chars(patterns),
    decreases patterns.len(),
{
    if n < patterns.len() {
        assert(patterns.drop_last().take(n) =~= patterns.take(n));
        lemma_total_grows(patterns.drop_last(), n);
    } else {
        assert(patterns.take(n) =~= patterns);
    }
}

/// Whether a product of this size is small enough.
fn takes_little(total: u64, crowd: u128) -> (r: bool)
    requires
        total < 0x4000_0000,
        crowd <= 0x4_0000_0000_0000_0000,
    ensures
        r == ((4 * total + 4) * (crowd + 256) < 0x7fff_ffff),
{
    assert(0 <= (4 * total + 4) * (crowd + 256) <= 0x1_0000_0004 * 0x4_0000_0000_0000_0100)
        by (nonlinear_arith)
        requires
            0 <= total < 0x4000_0000,
            0 <= crowd <= 0x4_0000_0000_0000_0000,
    ;
    (4 * total as u128 + 4) * (crowd + 256) < 0x7fff_ffff
}

/// How many characters patterns have together and how many the longest has, unless those are
/// too many for any automaton.
fn sizes_of(patterns: &Vec<String>) -> (r: Option<(u64, usize)>)
    ensures
        match r {
            Some((total, most)) => {
                &&& total == total_chars(texts(patterns@))
                &&& most == longest(texts(patterns@))
                &&& most <= total < 0x4000_0000
            },
            None => total_chars(texts(patterns@)) >= 0x4000_0000,
        },
{
    let ghost all = texts(patterns@);
    let mut total: u64 = 0;
    let mut most: usize = 0;
    let mut i: usize = 0;
    assert(all.take(0) =~= Seq::<Seq<char>>::empty());
    while i < patterns.len()
        invariant
            i <= patterns.len(),
            all == texts(patterns@),
            total == total_chars(all.take(i as int)),
            most == longest(all.take(i as int)),
            most <= total < 0x4000_0000,
        decreases patterns.len() - i,
    {
        let len = chars_of(patterns[i].as_str()).len();
        assert(all.take(i + 1).drop_last() =~= all.take(i as int));
        assert(all[i as int] == patterns@[i as int]@);
        assert(total_chars(all.take(i + 1)) == total + len);
        if len as u64 >= 0x4000_0000 - total {
            proof {
                lemma_total_grows(all, i + 1);
            }
            return None;
        }
        total = total + len as u64;
        if len > most {
            most = len;
        }
        i += 1;
    }
    assert(all.take(i as int) =~= all);
    Some((total, most))
}

/// Whether the automaton for a list of patterns can number its states.
fn automaton_fits(patterns: &Vec<String>) -> (r: bool)
    ensures
        r == fits_automaton(texts(patterns@)),
{
    let ghost all = texts(patterns@);
    let count: u128 = patterns.len() as u128;
    if let Some((total, _)) = sizes_of(patterns) {
        if takes_little(total, count) {
            proof {
                lemma_distinct_total(all);
                lemma_takes_less(
                    (4 * total_chars(distinct(all)) + 4) as int,
                    crowd(all) as int,
                    4 * total + 4,
                    all.len() as int,
                );
            }
            return true;
        }
    }
    let kinds = distinct_patterns(patterns);
    match sizes_of(&kinds) {
        Some((total, most)) => {
            let same = count_most_alike(patterns);
            assert(0 <= 4 * most * same <= 4 * 0x4000_0000 * 0xffff_ffff_ffff_ffff)
                by (nonlinear_arith)
                requires
                    0 <= most < 0x4000_0000,
                    0 <= same <= 0xffff_ffff_ffff_ffff,
            ;
            let few: u128 = 4 * (most as u128) * (same as u128);
            takes_little(
                total,
                if few < count {
                    few
                } else {
                    count
                },
            )
        },
        None => {
            proof {
                lemma_too_much((4 * total_chars(distinct(all)) + 4) as int, crowd(all) as int);
            }
            false
        },
    }
}

/// Whether a set can be built for a list of patterns.
pub fn patterns_fit(patterns: &Vec<String>) -> (r: bool)
    ensures
        r == can_build(texts(patterns@)),
{
    let ghost all = texts(patterns@);
    let mut i: usize = 0;
    while i < patterns.len()
        invariant
            i <= patterns.len(),
            all == texts(patterns@),
            forall|k: int| 0 <= k < i ==> is_shallow(#[trigger] all[k], MAX_NESTING as int),
        decreases patterns.len() - i,
    {
        assert(all[i as int] == patterns@[i as int]@);
        let chars = chars_of(patterns[i].as_str());
        if nesting_of(&chars, true) > MAX_NESTING || nesting_of(&chars, false) > MAX_NESTING {
            assert(!is_shallow(all[i as int], MAX_NESTING as int));
            return false;
        }
        i += 1;
    }
    automaton_fits(patterns)
}

/// The set for a list of patterns; none for an empty list. Where something is wrong with a
/// pattern, the failure says what is wrong with the first such. Plain patterns never fail, and
/// a modest list fails only where something is wrong with a pattern.
pub fn build_glob_set(patterns: &Vec<String>) -> (r: Result<Option<globset::GlobSet>, MgetError>)
    requires
        can_build(texts(patterns@)),
    ensures
        patterns@.len() == 0 <==> r matches Ok(None),
        are_accepted(texts(patterns@)) ==> r is Ok,
        match r {
            Ok(Some(set)) => {
                &&& set_patterns(set) == texts(patterns@)
                &&& first_problem(texts(patterns@), set_backslash(set)) is None
            },
            Ok(None) => true,
            Err(error) => exists|backslash: bool|
                is_set_failure(texts(patterns@), backslash, error@),
        },
{
    if patterns.len() == 0 {
        return Ok(None);
    }
    let ghost all = texts(patterns@);
    let mut builder = new_builder();
    let ghost backslash = builder_backslash(builder);
    let mut i: usize = 0;
    assert(all.take(0) =~= Seq::<Seq<char>>::empty());
    while i < patterns.len()
        invariant
            i <= patterns.len(),
            all == texts(patterns@),
            can_build(all),
            builder_backslash(builder) == backslash,
            builder_patterns(builder) == all.take(i as int),
            first_problem(all.take(i as int), backslash) is None,
        decreases patterns.len() - i,
    {
        assert(all[i as int] == patterns@[i as int]@);
        assert(all.take(i + 1).drop_last() =~= all.take(i as int));
        assert(all.take(i as int).push(all[i as int]) =~= all.take(i + 1));
        assert(is_shallow(all[i as int], MAX_NESTING as int));
        match add_glob(&mut builder, patterns[i].as_str()) {
            Ok(_) => {},
            Err(text) => {
                let error = MgetError::Glob(text);
                proof {
                    lemma_problem_stays(all, i + 1, backslash);
                    assert(is_set_failure(all, backslash, error@));
                    if is_plain(all[i as int]) {
                        lemma_plain_is_simple(all[i as int]);
                    }
                }
                return Err(error);
            },
        }
        i += 1;
    }
    assert(all.take(i as int) =~= all);
    match build_set(&builder) {
        Ok(set) => Ok(Some(set)),
        Err(text) => {
            let error = MgetError::Glob(text);
            assert(is_set_failure(all, backslash, error@));
            Err(error)
        },
    }
}

/// Whether a failure can come of a list of patterns: it says what is wrong with the first
/// pattern that something is wrong with. Where nothing is wrong with any of them it can only
/// come of a list that is neither plain nor modest, and can say anything: such patterns can
/// nest groups too deeply or take too much memory to be compiled.
pub open spec fn is_set_failure(
    patterns: Seq<Seq<char>>,
    backslash: bool,
    failure: Failure,
) -> bool {
    failure matches Failure::Glob(text) && (first_problem(patterns, backslash) == Some(text) || (
    first_problem(patterns, backslash) is None && !compiles(patterns)))
}

/// What a set, if there is one, says of a path: whether one of its patterns matches.
pub open spec fn set_verdict(set: Option<globset::GlobSet>, path: Seq<char>) -> Option<bool> {
    match set {
        Some(set) => Some(any_matches(set_patterns(set), path, set_backslash(set))),
        None => None,
    }
}

/// What a set, if there is one, says of a path.
pub fn verdict_of(set: &Option<globset::GlobSet>, path: &str) -> (r: Option<bool>)
    ensures
        r == set_verdict(*set, path@),
{
    match set {
        Some(set) => {
            let r = set_matches(set, path);
            proof {
                let patterns = set_patterns(*set);
                if any_matches(patterns, path@, set_backslash(*set)) {
                    let i = choose|i: int|
                        0 <= i < patterns.len() && pattern_matches(
                            #[trigger] patterns[i],
                            path@,
                            set_backslash(*set),
                        );
                    assert(is_plain(patterns[i]) || !is_plain(patterns[i]));
                }
            }
            Some(r)
        },
        None => None,
    }
}

/// What plain patterns mean: an ordinary text matches itself alone, with a star behind it every
/// path that starts with it, and with a star before it every path that ends in it.
pub proof fn plain_patterns_match_texts(text: Seq<char>, path: Seq<char>, rest: Seq<char>)
    requires
        text.len() > 0,
        all_ordinary(text),
    ensures
        pattern_matches(text, path, false) <==> path == text,
        pattern_matches(text.push('*'), text + rest, false),
        pattern_matches(text.push('*'), path, false) ==> exists|tail: Seq<char>|
            path == #[trigger] (text + tail),
        text != seq!['.'] && text != seq!['/'] ==> {
            &&& pattern_matches(seq!['*'] + text, rest + text, false)
            &&& pattern_matches(seq!['*'] + text, path, false) ==> exists|head: Seq<char>|
                path == #[trigger] (head + text)
        },
{
    let (start, end) = (text.push('*'), seq!['*'] + text);
    assert(matched_path(path, false) =~= path);
    assert(matched_path(text + rest, false) =~= text + rest);
    assert(matched_path(rest + text, false) =~= rest + text);
    assert(start.drop_last() =~= text);
    assert(end.skip(1) =~= text);
    assert(is_ordinary(text[text.len() - 1]));
    assert(is_ordinary(text[0]));
    assert(text.last() != '*' && text[0] != '*');
    assert(!all_ordinary(start)) by {
        assert(!is_ordinary(start[start.len() - 1]));
    }
    assert(!is_start(end)) by {
        assert(end.last() == text.last());
    }
    assert((text + rest).take(text.len() as int) =~= text);
    assert((rest + text).skip(rest.len() as int) =~= text);
    if pattern_matches(start, path, false) {
        assert(path =~= text + path.skip(text.len() as int));
    }
    if text != seq!['.'] && text != seq!['/'] && pattern_matches(end, path, false) {
        let n = path.len() - text.len();
        assert(path =~= path.take(n) + text);
    }
}

/// What is wrong with a list is what is wrong with the first pattern that something is wrong
/// with.
pub proof fn first_problem_is_told(patterns: Seq<Seq<char>>, backslash: bool, i: int)
    requires
        0 <= i < patterns.len(),
        glob_problem(patterns[i], backslash) is Some,
        forall|j: int| 0 <= j < i ==> glob_problem(#[trigger] patterns[j], backslash) is None,
    ensures
        first_problem(patterns, backslash) == glob_problem(patterns[i], backslash),
    decreases patterns.len(),
{
    let before = patterns.drop_last();
    if i < patterns.len() - 1 {
        assert(before[i] == patterns[i]);
        first_problem_is_told(before, backslash, i);
    } else {
        good_patterns_have_no_problem(before, backslash);
    }
}

/// A list in which nothing is wrong with any pattern has no problem.
pub proof fn good_patterns_have_no_problem(patterns: Seq<Seq<char>>, backslash: bool)
    requires
        forall|j: int|
            0 <= j < patterns.len() ==> glob_problem(#[trigger] patterns[j], backslash) is None,
    ensures
        first_problem(patterns, backslash) is None,
    decreases patterns.len(),
{
    if patterns.len() > 0 {
        let before = patterns.drop_last();
        assert forall|j: int| 0 <= j < before.len() implies glob_problem(
            #[trigger] before[j],
            backslash,
        ) is None by {
            assert(before[j] == patterns[j]);
        }
        good_patterns_have_no_problem(before, backslash);
        assert(glob_problem(patterns[patterns.len() - 1], backslash) is None);
    }
}

/// A list in which something is wrong with a pattern fails with that and nothing else, and one
/// that compiles does not fail.
pub proof fn sets_fail_for_their_patterns(
    patterns: Seq<Seq<char>>,
    backslash: bool,
    text: Seq<char>,
    problem: Seq<char>,
)
    ensures
        first_problem(patterns, backslash) == Some(problem) ==> (is_set_failure(
            patterns,
            backslash,
            Failure::Glob(text),
        ) <==> text == problem),
        first_problem(patterns, backslash) is None ==> (is_set_failure(
            patterns,
            backslash,
            Failure::Glob(text),
        ) <==> !compiles(patterns)),
        !is_set_failure(patterns, backslash, Failure::Message(text)),
{
}

/// A path is matched with slashes for backslashes where those separate names, and else as it is.
pub proof fn paths_are_matched_with_slashes(path: Seq<char>, backslash: bool)
    ensures
        matched_path(path, false) == path,
        matched_path(path, backslash).len() == path.len(),
        forall|i: int|
            0 <= i < path.len() ==> #[trigger] matched_path(path, true)[i] == (if path[i]
                == '\\' {
                '/'
            } else {
                path[i]
            }),
{
    assert(matched_path(path, false) =~= path);
}

} // verus!
