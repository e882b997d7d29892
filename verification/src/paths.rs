//! Paths as texts, as the two kinds of systems read them.

use vstd::prelude::*;

use crate::text::{
    ascii_lower, chars_of, find_from, first_index, join, join_texts, lemma_first_index,
    lemma_join_split, same_text, split, split_text, substring, texts, to_ascii_lower,
};

verus! {

/// A kind of system: how its paths are read.
#[derive(Clone, Copy, Debug, PartialEq, Eq, Structural)]
pub enum Platform {
    /// `/` separates.
    Unix,
    /// `/` and `\` separate, and a path can start with a drive, a share or a device.
    Windows,
}

/// Whether a character separates the pieces of a path.
pub open spec fn is_separator(ch: char, platform: Platform) -> bool {
    ch == '/' || (platform is Windows && ch == '\\')
}

/// A path with every separator as `/`.
pub open spec fn slashed(path: Seq<char>, platform: Platform) -> Seq<char> {
    Seq::new(
        path.len(),
        |i: int|
            if is_separator(path[i], platform) {
                '/'
            } else {
                path[i]
            },
    )
}

/// Whether a path is taken as it stands: it starts with `\\?\`, and only `\` separates.
pub open spec fn is_verbatim(path: Seq<char>, platform: Platform) -> bool {
    &&& platform is Windows
    &&& path.len() >= 4
    &&& path[0] == '\\'
    &&& path[1] == '\\'
    &&& path[2] == '?'
    &&& path[3] == '\\'
}

/// What separates the pieces of a path as it is read.
pub open spec fn separator(path: Seq<char>, platform: Platform) -> char {
    if is_verbatim(path, platform) {
        '\\'
    } else {
        '/'
    }
}

/// A path as it is read: with one kind of separator.
pub open spec fn as_read(path: Seq<char>, platform: Platform) -> Seq<char> {
    if is_verbatim(path, platform) {
        path
    } else {
        slashed(path, platform)
    }
}

/// The pieces of a path.
pub open spec fn pieces(path: Seq<char>, platform: Platform) -> Seq<Seq<char>> {
    split(as_read(path, platform), separator(path, platform))
}

/// Where the piece that starts at `from` ends.
pub open spec fn piece_end(text: Seq<char>, from: int, sep: char) -> int {
    from + first_index(text.skip(from), sep)
}

/// Whether a text starts with the letter of a drive and a colon.
pub open spec fn has_drive(text: Seq<char>) -> bool {
    &&& text.len() >= 2
    &&& text[1] == ':'
    &&& ('a' <= text[0] <= 'z' || 'A' <= text[0] <= 'Z')
}

/// Whether `UNC\` follows the start of a verbatim path.
pub open spec fn has_share_mark(path: Seq<char>) -> bool {
    &&& path.len() >= 8
    &&& path[4] == 'U'
    &&& path[5] == 'N'
    &&& path[6] == 'C'
    &&& path[7] == '\\'
}

/// How many characters of a verbatim path name the share, the drive or whatever else it
/// starts at.
pub open spec fn verbatim_prefix_len(path: Seq<char>) -> int {
    if has_share_mark(path) {
        let server = piece_end(path, 8, '\\');
        if server < path.len() && piece_end(path, server + 1, '\\') > server + 1 {
            piece_end(path, server + 1, '\\')
        } else {
            server
        }
    } else if has_drive(path.skip(4)) && (path.len() == 6 || path[6] == '\\') {
        6
    } else {
        piece_end(path, 4, '\\')
    }
}

/// How many characters of a path with one kind of separator name the share, the device or
/// the drive it starts at.
pub open spec fn plain_prefix_len(text: Seq<char>) -> int {
    if text.len() >= 2 && text[0] == '/' && text[1] == '/' {
        if text.len() >= 4 && text[2] == '.' && text[3] == '/' {
            piece_end(text, 4, '/')
        } else {
            let server = piece_end(text, 2, '/');
            if 2 < server < text.len() && piece_end(text, server + 1, '/') > server + 1 {
                piece_end(text, server + 1, '/')
            } else {
                0
            }
        }
    } else if has_drive(text) {
        2
    } else {
        0
    }
}

/// How many characters of a path name the drive, the share or the device it starts at.
pub open spec fn prefix_len(path: Seq<char>, platform: Platform) -> int {
    if platform is Unix {
        0
    } else if is_verbatim(path, platform) {
        verbatim_prefix_len(path)
    } else {
        plain_prefix_len(slashed(path, platform))
    }
}

/// Whether a path names a drive and nothing else.
pub open spec fn is_bare_drive(path: Seq<char>, platform: Platform) -> bool {
    path.len() == 2 && prefix_len(path, platform) == 2
}

/// Whether a path starts with a separator.
pub open spec fn is_rooted(path: Seq<char>, platform: Platform) -> bool {
    path.len() > 0 && is_separator(path[0], platform)
}

/// The pieces that are not empty.
pub open spec fn solid_pieces(pieces: Seq<Seq<char>>) -> Seq<Seq<char>>
    decreases pieces.len(),
{
    if pieces.len() == 0 {
        Seq::empty()
    } else {
        let before = solid_pieces(pieces.drop_last());
        if pieces.last().len() == 0 {
            before
        } else {
            before.push(pieces.last())
        }
    }
}

/// The pieces that lead somewhere: neither empty nor `.`.
pub open spec fn leading_pieces(pieces: Seq<Seq<char>>) -> Seq<Seq<char>>
    decreases pieces.len(),
{
    if pieces.len() == 0 {
        Seq::empty()
    } else {
        let before = leading_pieces(pieces.drop_last());
        if pieces.last().len() == 0 || pieces.last() == "."@ {
            before
        } else {
            before.push(pieces.last())
        }
    }
}

/// Where the pieces of a path lead from `start`: `..` takes back the name before it.
pub open spec fn walked(start: Seq<Seq<char>>, pieces: Seq<Seq<char>>) -> Seq<Seq<char>>
    decreases pieces.len(),
{
    if pieces.len() == 0 {
        start
    } else {
        let before = walked(start, pieces.drop_last());
        let piece = pieces.last();
        if piece.len() == 0 || piece == "."@ {
            before
        } else if piece != ".."@ {
            before.push(piece)
        } else if before.len() > 0 && before.last() != "."@ && before.last() != ".."@ {
            before.drop_last()
        } else {
            before
        }
    }
}

/// `path` seen from a verbatim `base`: since nothing is resolved in such a path later on, the
/// pieces of `path` are followed at once.
pub open spec fn verbatim_joined(base: Seq<char>, path: Seq<char>) -> Seq<char> {
    let n = verbatim_prefix_len(base);
    let rooted = is_rooted(path, Platform::Windows);
    let start = if rooted {
        Seq::empty()
    } else {
        solid_pieces(split(base.skip(n), '\\'))
    };
    let parts = walked(start, split(slashed(path, Platform::Windows), '/'));
    if rooted || n < base.len() || parts.len() > 0 {
        base.take(n) + "\\"@ + join(parts, "\\"@)
    } else {
        base.take(n)
    }
}

/// The separator that joining puts between two paths.
pub open spec fn main_separator(platform: Platform) -> Seq<char> {
    match platform {
        Platform::Unix => "/"@,
        Platform::Windows => "\\"@,
    }
}

/// `path` seen from `base`: `path` itself when it says where it starts, else `path` below
/// `base`, or below its drive, share or device when it starts with a separator.
pub open spec fn joined(base: Seq<char>, path: Seq<char>, platform: Platform) -> Seq<char> {
    if prefix_len(path, platform) > 0 {
        path
    } else if is_verbatim(base, platform) && path.len() > 0 {
        verbatim_joined(base, path)
    } else if is_rooted(path, platform) {
        base.take(prefix_len(base, platform)) + path
    } else if base.len() == 0 || is_separator(base.last(), platform) || is_bare_drive(
        base,
        platform,
    ) {
        base + path
    } else {
        base + main_separator(platform) + path
    }
}

/// The steps that a path takes, the names of what it starts at among them.
pub open spec fn steps(path: Seq<char>, platform: Platform) -> Seq<Seq<char>> {
    leading_pieces(pieces(path, platform))
}

/// The part of a path behind the drive, the share or the device it starts at.
pub open spec fn own_text(path: Seq<char>, platform: Platform) -> Seq<char> {
    as_read(path, platform).skip(prefix_len(path, platform))
}

/// What a path starts at, with the letter of a drive in lower case.
pub open spec fn prefix_text(path: Seq<char>, platform: Platform) -> Seq<char> {
    let n = prefix_len(path, platform);
    let text = as_read(path, platform).take(n);
    if n == 2 {
        text.update(0, ascii_lower(text[0]))
    } else if n == 6 && is_verbatim(path, platform) && text[5] == ':' {
        text.update(4, ascii_lower(text[4]))
    } else {
        text
    }
}

/// Whether a path starts at a root: its own text starts with a separator, or it starts at a
/// share or a device.
pub open spec fn has_root(path: Seq<char>, platform: Platform) -> bool {
    ||| own_text(path, platform).len() > 0 && own_text(path, platform)[0] == separator(
        path,
        platform,
    )
    ||| prefix_len(path, platform) > 2 && !is_verbatim(path, platform)
}

/// Whether a path says `.` in its first place.
pub open spec fn starts_here(path: Seq<char>, platform: Platform) -> bool {
    split(own_text(path, platform), separator(path, platform))[0] == "."@
}

/// The pieces of a path that tell it from others.
pub open spec fn own_pieces(path: Seq<char>, platform: Platform) -> Seq<Seq<char>> {
    if is_verbatim(path, platform) {
        solid_pieces(split(own_text(path, platform), '\\'))
    } else {
        leading_pieces(split(own_text(path, platform), '/'))
    }
}

/// Whether two paths are the same up to repeated separators, a separator at the end, `.`
/// anywhere but in the first place, and the case of the letter of a drive.
pub open spec fn same_location(a: Seq<char>, b: Seq<char>, platform: Platform) -> bool {
    &&& prefix_text(a, platform) == prefix_text(b, platform)
    &&& has_root(a, platform) == has_root(b, platform)
    &&& starts_here(a, platform) == starts_here(b, platform)
    &&& own_pieces(a, platform) == own_pieces(b, platform)
}

/// A piece ends behind its start and no later than the text.
proof fn lemma_piece_end(text: Seq<char>, from: int, sep: char)
    requires
        0 <= from <= text.len(),
    ensures
        from <= piece_end(text, from, sep) <= text.len(),
        piece_end(text, from, sep) < text.len() ==> text[piece_end(text, from, sep)] == sep,
{
    lemma_first_index(text.skip(from), sep);
}

/// What a path starts at is a part of it; in a verbatim path a separator follows it.
pub proof fn lemma_prefix_len(path: Seq<char>, platform: Platform)
    ensures
        0 <= prefix_len(path, platform) <= path.len(),
        !(prefix_len(path, platform) == 1 || prefix_len(path, platform) == 3),
        is_verbatim(path, platform) ==> prefix_len(path, platform) >= 4,
        is_verbatim(path, platform) && prefix_len(path, platform) < path.len() ==> path[prefix_len(
            path,
            platform,
        )] == '\\',
        !is_verbatim(path, platform) && prefix_len(path, platform) == 2 ==> path[1] == ':',
{
    if is_verbatim(path, platform) {
        if has_share_mark(path) {
            lemma_piece_end(path, 8, '\\');
            let server = piece_end(path, 8, '\\');
            if server < path.len() {
                lemma_piece_end(path, server + 1, '\\');
            }
        } else {
            lemma_piece_end(path, 4, '\\');
        }
    } else {
        let text = slashed(path, platform);
        if text.len() >= 4 {
            lemma_piece_end(text, 4, '/');
        }
        if text.len() >= 2 {
            lemma_piece_end(text, 2, '/');
            let server = piece_end(text, 2, '/');
            if server < text.len() {
                lemma_piece_end(text, server + 1, '/');
            }
        }
    }
}

/// Whether a character separates the pieces of a path.
fn separates(ch: char, platform: Platform) -> (r: bool)
    ensures
        r == is_separator(ch, platform),
{
    match platform {
        Platform::Unix => ch == '/',
        Platform::Windows => ch == '/' || ch == '\\',
    }
}

/// A path with every separator as `/`.
fn slash_chars(chars: &Vec<char>, platform: Platform) -> (out: Vec<char>)
    ensures
        out@ == slashed(chars@, platform),
{
    let mut out: Vec<char> = Vec::new();
    let mut i: usize = 0;
    while i < chars.len()
        invariant
            i <= chars.len(),
            out@ == slashed(chars@, platform).take(i as int),
        decreases chars.len() - i,
    {
        let ghost all = slashed(chars@, platform);
        let ghost before = out@;
        let ch = chars[i];
        out.push(
            if separates(ch, platform) {
                '/'
            } else {
                ch
            },
        );
        assert(out@ =~= before.push(all[i as int]));
        assert(all.take(i + 1) =~= all.take(i as int).push(all[i as int]));
        i += 1;
    }
    assert(slashed(chars@, platform).take(i as int) =~= slashed(chars@, platform));
    out
}

/// Whether a path is taken as it stands.
pub(crate) fn stands_verbatim(chars: &Vec<char>, platform: Platform) -> (r: bool)
    ensures
        r == is_verbatim(chars@, platform),
{
    match platform {
        Platform::Unix => false,
        Platform::Windows => chars.len() >= 4 && chars[0] == '\\' && chars[1] == '\\' && chars[2]
            == '?' && chars[3] == '\\',
    }
}

/// A path as it is read.
pub(crate) fn read_chars(chars: &Vec<char>, platform: Platform) -> (out: Vec<char>)
    ensures
        out@ == as_read(chars@, platform),
{
    if stands_verbatim(chars, platform) {
        chars.clone()
    } else {
        slash_chars(chars, platform)
    }
}

/// Whether the letter of a drive and a colon stand at a place.
fn drive_at(chars: &Vec<char>, from: usize) -> (r: bool)
    requires
        from <= chars.len(),
    ensures
        r == has_drive(chars@.skip(from as int)),
{
    if chars.len() - from < 2 || chars[from + 1] != ':' {
        return false;
    }
    let ch = chars[from];
    ('a' <= ch && ch <= 'z') || ('A' <= ch && ch <= 'Z')
}

/// The length of what a verbatim path starts at.
fn verbatim_prefix(chars: &Vec<char>) -> (n: usize)
    requires
        is_verbatim(chars@, Platform::Windows),
    ensures
        n == verbatim_prefix_len(chars@),
        4 <= n <= chars.len(),
{
    if chars.len() >= 8 && chars[4] == 'U' && chars[5] == 'N' && chars[6] == 'C' && chars[7]
        == '\\' {
        let server = find_from(chars, '\\', 8);
        if server < chars.len() {
            let share = find_from(chars, '\\', server + 1);
            if share > server + 1 {
                return share;
            }
        }
        server
    } else if drive_at(chars, 4) && (chars.len() == 6 || chars[6] == '\\') {
        6
    } else {
        find_from(chars, '\\', 4)
    }
}

/// The length of what a path with one kind of separator starts at.
fn plain_prefix(text: &Vec<char>) -> (n: usize)
    ensures
        n == plain_prefix_len(text@),
        n <= text.len(),
{
    assert(text@.skip(0) =~= text@);
    if text.len() >= 2 && text[0] == '/' && text[1] == '/' {
        if text.len() >= 4 && text[2] == '.' && text[3] == '/' {
            return find_from(text, '/', 4);
        }
        let server = find_from(text, '/', 2);
        if server > 2 && server < text.len() {
            let share = find_from(text, '/', server + 1);
            if share > server + 1 {
                return share;
            }
        }
        0
    } else if drive_at(text, 0) {
        2
    } else {
        0
    }
}

/// The length of what a path starts at.
pub(crate) fn prefix_length(chars: &Vec<char>, platform: Platform) -> (n: usize)
    ensures
        n == prefix_len(chars@, platform),
        n <= chars.len(),
{
    match platform {
        Platform::Unix => 0,
        Platform::Windows => {
            if stands_verbatim(chars, platform) {
                verbatim_prefix(chars)
            } else {
                plain_prefix(&slash_chars(chars, platform))
            }
        },
    }
}

/// Whether a path names the drive, the share or the device it starts at.
pub fn has_prefix(path: &str, platform: Platform) -> (r: bool)
    ensures
        r == (prefix_len(path@, platform) > 0),
{
    prefix_length(&chars_of(path), platform) > 0
}

/// Whether a path starts with a separator.
pub fn is_rooted_path(path: &str, platform: Platform) -> (r: bool)
    ensures
        r == is_rooted(path@, platform),
{
    let chars = chars_of(path);
    chars.len() > 0 && separates(chars[0], platform)
}

/// The pieces of a path without a prefix.
pub fn slash_pieces(path: &str, platform: Platform) -> (out: Vec<String>)
    ensures
        texts(out@) == split(slashed(path@, platform), '/'),
{
    let text = slash_chars(&chars_of(path), platform);
    let whole = substring(&text, 0, text.len());
    assert(whole@ =~= text@);
    split_text(whole.as_str(), '/')
}

/// Where the pieces of a path lead from `start`.
fn walk(start: Vec<String>, pieces: &Vec<String>) -> (out: Vec<String>)
    ensures
        texts(out@) == walked(texts(start@), texts(pieces@)),
{
    let ghost all = texts(pieces@);
    let ghost from = texts(start@);
    let mut out = start;
    let mut i: usize = 0;
    assert(all.take(0) =~= Seq::<Seq<char>>::empty());
    while i < pieces.len()
        invariant
            i <= pieces.len(),
            all == texts(pieces@),
            texts(out@) == walked(from, all.take(i as int)),
        decreases pieces.len() - i,
    {
        let ghost before = texts(out@);
        assert(all[i as int] == pieces@[i as int]@);
        assert(all.take(i + 1).drop_last() =~= all.take(i as int));
        proof {
            reveal_strlit("");
            reveal_strlit(".");
            reveal_strlit("..");
        }
        let piece = pieces[i].as_str();
        if same_text(piece, "") || same_text(piece, ".") {
        } else if !same_text(piece, "..") {
            assert(piece@.len() == 0 ==> piece@ =~= ""@);
            out.push(pieces[i].clone());
            assert(texts(out@) =~= before.push(all[i as int]));
        } else if out.len() > 0 {
            let last = out[out.len() - 1].as_str();
            assert(before.last() == last@);
            if !same_text(last, ".") && !same_text(last, "..") {
                let _ = out.pop();
                assert(texts(out@) =~= before.drop_last());
            }
        }
        i += 1;
    }
    assert(all.take(i as int) =~= all);
    out
}

/// The pieces that are not empty.
fn keep_solid(pieces: Vec<String>) -> (out: Vec<String>)
    ensures
        texts(out@) == solid_pieces(texts(pieces@)),
{
    let ghost all = texts(pieces@);
    let mut out: Vec<String> = Vec::new();
    let mut i: usize = 0;
    assert(texts(out@) =~= solid_pieces(all.take(0)));
    while i < pieces.len()
        invariant
            i <= pieces.len(),
            all == texts(pieces@),
            texts(out@) == solid_pieces(all.take(i as int)),
        decreases pieces.len() - i,
    {
        let ghost before = texts(out@);
        assert(all[i as int] == pieces@[i as int]@);
        assert(all.take(i + 1).drop_last() =~= all.take(i as int));
        proof {
            reveal_strlit("");
        }
        if !same_text(pieces[i].as_str(), "") {
            assert(pieces@[i as int]@.len() == 0 ==> pieces@[i as int]@ =~= ""@);
            out.push(pieces[i].clone());
            assert(texts(out@) =~= before.push(all[i as int]));
        }
        i += 1;
    }
    assert(all.take(i as int) =~= all);
    out
}

/// The pieces that lead somewhere.
fn keep_leading(pieces: Vec<String>) -> (out: Vec<String>)
    ensures
        texts(out@) == leading_pieces(texts(pieces@)),
{
    let ghost all = texts(pieces@);
    let mut out: Vec<String> = Vec::new();
    let mut i: usize = 0;
    assert(texts(out@) =~= leading_pieces(all.take(0)));
    while i < pieces.len()
        invariant
            i <= pieces.len(),
            all == texts(pieces@),
            texts(out@) == leading_pieces(all.take(i as int)),
        decreases pieces.len() - i,
    {
        let ghost before = texts(out@);
        assert(all[i as int] == pieces@[i as int]@);
        assert(all.take(i + 1).drop_last() =~= all.take(i as int));
        proof {
            reveal_strlit("");
        }
        if !same_text(pieces[i].as_str(), "") && !same_text(pieces[i].as_str(), ".") {
            assert(pieces@[i as int]@.len() == 0 ==> pieces@[i as int]@ =~= ""@);
            out.push(pieces[i].clone());
            assert(texts(out@) =~= before.push(all[i as int]));
        }
        i += 1;
    }
    assert(all.take(i as int) =~= all);
    out
}

/// `path` seen from a verbatim `base`.
fn join_verbatim(base: &Vec<char>, path: &str) -> (out: String)
    requires
        is_verbatim(base@, Platform::Windows),
    ensures
        out@ == verbatim_joined(base@, path@),
{
    let n = verbatim_prefix(base);
    let rooted = is_rooted_path(path, Platform::Windows);
    let start: Vec<String> = if rooted {
        Vec::new()
    } else {
        let rest = substring(base, n, base.len());
        assert(rest@ =~= base@.skip(n as int));
        keep_solid(split_text(rest.as_str(), '\\'))
    };
    assert(rooted ==> texts(start@) =~= Seq::<Seq<char>>::empty());
    let parts = walk(start, &slash_pieces(path, Platform::Windows));
    let mut out = substring(base, 0, n);
    assert(out@ =~= base@.take(n as int));
    assert(texts(parts@).len() == parts@.len());
    if rooted || n < base.len() || parts.len() > 0 {
        out.append("\\");
        out.append(join_texts(&parts, "\\").as_str());
    }
    out
}

/// `path` seen from `base`.
pub fn join_path(base: &str, path: &str, platform: Platform) -> (out: String)
    ensures
        out@ == joined(base@, path@, platform),
{
    let start = chars_of(base);
    let added = chars_of(path);
    let n = prefix_length(&start, platform);
    if prefix_length(&added, platform) > 0 {
        return path.to_owned();
    }
    if stands_verbatim(&start, platform) && added.len() > 0 {
        return join_verbatim(&start, path);
    }
    if added.len() > 0 && separates(added[0], platform) {
        let mut out = substring(&start, 0, n);
        assert(out@ =~= base@.take(n as int));
        out.append(path);
        return out;
    }
    let mut out = base.to_owned();
    let bare = start.len() == 2 && n == 2;
    if start.len() > 0 && !separates(start[start.len() - 1], platform) && !bare {
        match platform {
            Platform::Unix => {
                out.append("/");
            },
            Platform::Windows => {
                out.append("\\");
            },
        }
    }
    out.append(path);
    out
}

/// What tells a path from others.
struct Place {
    prefix: String,
    root: bool,
    here: bool,
    pieces: Vec<String>,
}

/// What tells a path from others.
fn place_of(path: &str, platform: Platform) -> (r: Place)
    ensures
        r.prefix@ == prefix_text(path@, platform),
        r.root == has_root(path@, platform),
        r.here == starts_here(path@, platform),
        texts(r.pieces@) == own_pieces(path@, platform),
{
    let chars = chars_of(path);
    let verbatim = stands_verbatim(&chars, platform);
    let text = read_chars(&chars, platform);
    let n = prefix_length(&chars, platform);
    proof {
        lemma_prefix_len(path@, platform);
    }
    let mut start = chars_of(substring(&text, 0, n).as_str());
    assert(start@ =~= text@.take(n as int));
    if n == 2 {
        let letter = to_ascii_lower(start[0]);
        start.set(0, letter);
    } else if n == 6 && verbatim && start[5] == ':' {
        let letter = to_ascii_lower(start[4]);
        start.set(4, letter);
    }
    let prefix = substring(&start, 0, start.len());
    assert(prefix@ =~= start@);
    let own = substring(&text, n, text.len());
    assert(own@ =~= own_text(path@, platform));
    let sep = if verbatim {
        '\\'
    } else {
        '/'
    };
    let root = (n < text.len() && text[n] == sep) || (n > 2 && !verbatim);
    let all = split_text(own.as_str(), sep);
    proof {
        lemma_join_split(own@, sep);
        assert(texts(all@).len() >= 1);
        assert(texts(all@)[0] == all@[0]@);
    }
    let here = same_text(all[0].as_str(), ".");
    let pieces = if verbatim {
        keep_solid(all)
    } else {
        keep_leading(all)
    };
    Place { prefix, root, here, pieces }
}

/// Whether two lists hold the same texts in the same order.
fn same_list(a: &Vec<String>, b: &Vec<String>) -> (r: bool)
    ensures
        r == (texts(a@) == texts(b@)),
{
    if a.len() != b.len() {
        assert(texts(a@).len() != texts(b@).len());
        return false;
    }
    let mut i: usize = 0;
    while i < a.len()
        invariant
            i <= a.len(),
            a.len() == b.len(),
            forall|j: int| 0 <= j < i ==> texts(a@)[j] == texts(b@)[j],
        decreases a.len() - i,
    {
        if !same_text(a[i].as_str(), b[i].as_str()) {
            assert(texts(a@)[i as int] != texts(b@)[i as int]);
            return false;
        }
        i += 1;
    }
    assert(texts(a@) =~= texts(b@));
    true
}

/// Whether two paths name the same place.
pub fn same_path(a: &str, b: &str, platform: Platform) -> (r: bool)
    ensures
        r == same_location(a@, b@, platform),
{
    let left = place_of(a, platform);
    let right = place_of(b, platform);
    same_text(left.prefix.as_str(), right.prefix.as_str()) && left.root == right.root && left.here
        == right.here && same_list(&left.pieces, &right.pieces)
}

/// On Windows two drives are the same exactly if their letters are, whatever their case.
pub proof fn drives_go_without_case(a: Seq<char>, b: Seq<char>)
    requires
        has_drive(a),
        has_drive(b),
    ensures
        prefix_text(a, Platform::Windows) == prefix_text(b, Platform::Windows) <==> ascii_lower(a[0])
            == ascii_lower(b[0]),
        prefix_len(a, Platform::Windows) == 2,
{
    let (one, other) = (prefix_text(a, Platform::Windows), prefix_text(b, Platform::Windows));
    assert(one =~= seq![ascii_lower(a[0]), ':']);
    assert(other =~= seq![ascii_lower(b[0]), ':']);
    assert(one[0] == ascii_lower(a[0]) && other[0] == ascii_lower(b[0]));
}

/// On Unix a path starts at the root exactly if it starts with a slash, and on Windows one with
/// a drive exactly if a separator follows the drive.
pub proof fn roots_are_written_first(path: Seq<char>, drive: Seq<char>)
    requires
        has_drive(drive),
    ensures
        has_root(path, Platform::Unix) <==> path.len() > 0 && path[0] == '/',
        has_root(drive, Platform::Windows) <==> drive.len() > 2 && (drive[2] == '/' || drive[2]
            == '\\'),
{
    drives_go_without_case(drive, drive);
    assert(own_text(path, Platform::Unix).len() == path.len());
    assert(own_text(drive, Platform::Windows).len() == drive.len() - 2);
}

/// On Unix a path says `.` in its first place exactly if it is `.` or goes on behind `./`.
pub proof fn dots_are_written_first(path: Seq<char>)
    ensures
        starts_here(path, Platform::Unix) <==> path.len() > 0 && path[0] == '.' && (path.len() == 1
            || path[1] == '/'),
{
    reveal_strlit(".");
    let own = own_text(path, Platform::Unix);
    assert(own =~= path);
    lemma_first_index(path, '/');
    let first = split(path, '/')[0];
    let i = first_index(path, '/');
    assert(first =~= path.take(i));
    if starts_here(path, Platform::Unix) {
        assert(first.len() == 1 && first[0] == '.');
        assert(path[0] == '.');
    }
    if path.len() > 0 && path[0] == '.' && (path.len() == 1 || path[1] == '/') {
        assert(i == 1);
        assert(first =~= "."@);
    }
}

} // verus!
