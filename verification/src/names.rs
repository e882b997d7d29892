//! The names that paths end in, and their extensions.

use vstd::prelude::*;

use crate::paths::{
    is_verbatim, lemma_prefix_len, own_text, prefix_len, prefix_length, read_chars, separator,
    stands_verbatim, Platform,
};
use crate::text::{
    chars_of, ends_with_char, find_last, last_index, lemma_last_index, substring, text_of,
};

verus! {

/// A text without the separators at its end and, where `.` leads nowhere, without
/// those that follow a separator.
pub open spec fn without_end(text: Seq<char>, sep: char, dots: bool) -> Seq<char>
    decreases text.len(),
{
    if ends_with_char(text, sep) {
        without_end(text.drop_last(), sep, dots)
    } else if dots && ends_with_char(text, '.') && ends_with_char(text.drop_last(), sep) {
        without_end(text.drop_last(), sep, dots)
    } else {
        text
    }
}

/// What a path says behind the drive, the share or the device it starts at, up to its last
/// name.
pub open spec fn core_text(path: Seq<char>, platform: Platform) -> Seq<char> {
    without_end(own_text(path, platform), separator(path, platform), !is_verbatim(path, platform))
}

/// A path up to its last name.
pub open spec fn trimmed(path: Seq<char>, platform: Platform) -> Seq<char> {
    path.take(prefix_len(path, platform) + core_text(path, platform).len())
}

/// Where the last piece of a trimmed path starts.
pub open spec fn name_start(path: Seq<char>, platform: Platform) -> int {
    prefix_len(path, platform) + last_index(core_text(path, platform), separator(path, platform))
        + 1
}

/// The last piece of a trimmed path.
pub open spec fn last_piece(path: Seq<char>, platform: Platform) -> Seq<char> {
    trimmed(path, platform).skip(name_start(path, platform))
}

/// Whether a path ends in a name, and not in the root, `.` or `..`.
pub open spec fn is_named(path: Seq<char>, platform: Platform) -> bool {
    let name = last_piece(path, platform);
    name.len() > 0 && name != "."@ && name != ".."@
}

/// A name up to its last dot, or all of it when it has no dot but in the first place.
pub open spec fn stem(name: Seq<char>) -> Seq<char> {
    if last_index(name, '.') <= 0 {
        name
    } else {
        name.take(last_index(name, '.'))
    }
}

/// What follows the last dot of a name that has one behind its first character.
pub open spec fn suffix(name: Seq<char>) -> Option<Seq<char>> {
    if last_index(name, '.') <= 0 {
        None
    } else {
        Some(name.skip(last_index(name, '.') + 1))
    }
}

/// The extension of a path.
pub open spec fn extension_of(path: Seq<char>, platform: Platform) -> Option<Seq<char>> {
    if is_named(path, platform) {
        suffix(last_piece(path, platform))
    } else {
        None
    }
}

/// A path with `ext` in place of its extension; unchanged when it ends in no name.
pub open spec fn with_extension_of(
    path: Seq<char>,
    ext: Seq<char>,
    platform: Platform,
) -> Seq<char> {
    if is_named(path, platform) {
        let kept = path.take(name_start(path, platform) + stem(last_piece(path, platform)).len());
        if ext.len() == 0 {
            kept
        } else {
            kept + "."@ + ext
        }
    } else {
        path
    }
}

/// A text without its end is a start of it.
proof fn lemma_without_end(text: Seq<char>, sep: char, dots: bool)
    ensures
        without_end(text, sep, dots).len() <= text.len(),
        without_end(text, sep, dots) == text.take(without_end(text, sep, dots).len() as int),
    decreases text.len(),
{
    if without_end(text, sep, dots) == text {
        assert(text.take(text.len() as int) =~= text);
    } else {
        let before = text.drop_last();
        lemma_without_end(before, sep, dots);
        let n = without_end(before, sep, dots).len() as int;
        assert(before.take(n) =~= text.take(n));
    }
}

/// The last piece lies inside the path.
pub proof fn lemma_name_start(path: Seq<char>, platform: Platform)
    ensures
        0 <= prefix_len(path, platform) <= name_start(path, platform) <= trimmed(
            path,
            platform,
        ).len() <= path.len(),
        trimmed(path, platform).len() == prefix_len(path, platform) + core_text(
            path,
            platform,
        ).len(),
{
    let core = core_text(path, platform);
    lemma_prefix_len(path, platform);
    lemma_without_end(
        own_text(path, platform),
        separator(path, platform),
        !is_verbatim(path, platform),
    );
    lemma_last_index(core, separator(path, platform));
}

/// A path that ends in neither a separator nor a dot is trimmed.
pub proof fn lemma_trimmed(path: Seq<char>, platform: Platform)
    requires
        path.len() > 0,
        path.last() != '/',
        path.last() != '\\',
        path.last() != '.',
    ensures
        trimmed(path, platform) == path,
{
    lemma_prefix_len(path, platform);
    let own = own_text(path, platform);
    if own.len() > 0 {
        assert(own.last() == path.last());
    }
    assert(core_text(path, platform) == own);
    assert(path.take(path.len() as int) =~= path);
}

/// The length of a text without its end.
fn end_of(text: &Vec<char>, sep: char, dots: bool) -> (end: usize)
    ensures
        end <= text.len(),
        text@.take(end as int) == without_end(text@, sep, dots),
{
    let mut end: usize = text.len();
    assert(text@.take(end as int) =~= text@);
    while end > 0
        invariant
            end <= text.len(),
            without_end(text@.take(end as int), sep, dots) == without_end(text@, sep, dots),
        decreases end,
    {
        let ghost now = text@.take(end as int);
        assert(now.drop_last() =~= text@.take(end - 1));
        if text[end - 1] == sep {
            end -= 1;
        } else if dots && text[end - 1] == '.' && end >= 2 && text[end - 2] == sep {
            end -= 1;
        } else {
            return end;
        }
    }
    end
}

/// The last piece of a path, and where it starts.
fn last_piece_of(path: &str, platform: Platform) -> (r: (usize, Vec<char>))
    ensures
        r.0 == name_start(path@, platform),
        r.1@ == last_piece(path@, platform),
        r.0 + r.1@.len() <= path@.len(),
{
    let chars = chars_of(path);
    let verbatim = stands_verbatim(&chars, platform);
    let text = read_chars(&chars, platform);
    let n = prefix_length(&chars, platform);
    let sep = if verbatim {
        '\\'
    } else {
        '/'
    };
    let own = chars_of(substring(&text, n, text.len()).as_str());
    assert(own@ =~= own_text(path@, platform));
    let end = end_of(&own, sep, !verbatim);
    let core = chars_of(substring(&own, 0, end).as_str());
    assert(core@ =~= core_text(path@, platform));
    proof {
        lemma_last_index(core@, sep);
        lemma_name_start(path@, platform);
    }
    let start: usize = match find_last(&core, sep) {
        Some(i) => n + i + 1,
        None => n,
    };
    let name = chars_of(substring(&chars, start, n + end).as_str());
    assert(name@ =~= last_piece(path@, platform));
    (start, name)
}

/// Whether these are the characters of a name.
fn is_name(name: &Vec<char>) -> (r: bool)
    ensures
        r == (name@.len() > 0 && name@ != "."@ && name@ != ".."@),
{
    proof {
        reveal_strlit(".");
        reveal_strlit("..");
    }
    if name.len() == 0 {
        return false;
    }
    if name.len() == 1 && name[0] == '.' {
        assert(name@ == "."@);
        return false;
    }
    if name.len() == 2 && name[0] == '.' && name[1] == '.' {
        assert(name@ == ".."@);
        return false;
    }
    true
}

/// The extension of a path.
pub fn extension(path: &str, platform: Platform) -> (r: Option<String>)
    ensures
        text_of(r) == extension_of(path@, platform),
{
    let (start, name) = last_piece_of(path, platform);
    if !is_name(&name) {
        return None;
    }
    proof {
        lemma_last_index(name@, '.');
    }
    match find_last(&name, '.') {
        Some(i) if i > 0 => {
            let ext = substring(&name, i + 1, name.len());
            assert(ext@ == name@.skip(i + 1));
            Some(ext)
        },
        _ => None,
    }
}

/// A path with `ext` in place of its extension.
pub fn with_extension(path: &str, ext: &str, platform: Platform) -> (out: String)
    ensures
        out@ == with_extension_of(path@, ext@, platform),
{
    let (start, name) = last_piece_of(path, platform);
    if !is_name(&name) {
        return path.to_owned();
    }
    proof {
        lemma_last_index(name@, '.');
    }
    let kept: usize = match find_last(&name, '.') {
        Some(i) if i > 0 => i,
        _ => name.len(),
    };
    assert(kept == stem(name@).len());
    let chars = chars_of(path);
    assert(start + kept <= chars.len());
    let mut out = substring(&chars, 0, start + kept);
    assert(out@ =~= path@.take(start + kept));
    let added = chars_of(ext);
    if added.len() > 0 {
        out.append(".");
        out.append(ext);
    }
    out
}

} // verus!
