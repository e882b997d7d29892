//! Where downloads are kept, and the links that other tools find them by.

use vstd::prelude::*;

use crate::cli::LinkChoice;
use crate::error::MgetError;
use crate::paths::{
    has_prefix, is_rooted, is_rooted_path, join_path, joined, lemma_prefix_len, prefix_len,
    same_location, same_path, slash_pieces, slashed, steps, Platform,
};
use crate::reach::{goes_on, joined_steps, lemma_leading_pieces_are_pieces, lemma_one_step};
use crate::source::{ResolvedModel, SourceKind};
use crate::text::{
    chars_of, cutting_is_at_the_first, first_index, join, join_texts, lemma_first_index_is,
    lemma_join_split, lemma_split_concat, lemma_split_join, replace, replace_char, same_text,
    slice_text_of, split, split_text, texts,
};

verus! {

/// Whether a character has a special meaning in the paths of some system.
pub open spec fn is_special(ch: char) -> bool {
    ||| ch == '/'
    ||| ch == '\\'
    ||| ch == ':'
    ||| ch == '*'
    ||| ch == '?'
    ||| ch == '"'
    ||| ch == '<'
    ||| ch == '>'
    ||| ch == '|'
}

/// A text as the name of one directory: every special character becomes `_`.
pub open spec fn sanitized(component: Seq<char>) -> Seq<char> {
    Seq::new(
        component.len(),
        |i: int|
            if is_special(component[i]) {
                '_'
            } else {
                component[i]
            },
    )
}

/// The pieces of a repository id that are not empty, each as the name of a directory.
pub open spec fn sanitized_pieces(pieces: Seq<Seq<char>>) -> Seq<Seq<char>>
    decreases pieces.len(),
{
    if pieces.len() == 0 {
        Seq::empty()
    } else {
        let before = sanitized_pieces(pieces.drop_last());
        if pieces.last().len() == 0 {
            before
        } else {
            before.push(sanitized(pieces.last()))
        }
    }
}

/// A repository id as a relative path: one directory for each piece of it.
pub open spec fn sanitized_id(repo: Seq<char>) -> Seq<char> {
    join(sanitized_pieces(split(repo, '/')), "/"@)
}

/// The directory of a download: the one that was asked for, else the one for the
/// source, the repository and the revision below the cache.
pub open spec fn output_root(
    explicit: Option<Seq<char>>,
    cache_dir: Seq<char>,
    source: SourceKind,
    id: Seq<char>,
    revision: Seq<char>,
    platform: Platform,
) -> Seq<char> {
    match explicit {
        Some(path) => path,
        None => {
            let place = joined(cache_dir, source.segment_text(), platform);
            joined(joined(place, sanitized_id(id), platform), sanitized(revision), platform)
        },
    }
}

/// A text as the name of one directory.
pub fn sanitize_component(component: &str) -> (out: String)
    ensures
        out@ == sanitized(component@),
{
    let chars = chars_of(component);
    let mut out = String::new();
    let mut i: usize = 0;
    while i < chars.len()
        invariant
            i <= chars.len(),
            chars@ == component@,
            out@ == sanitized(component@).take(i as int),
        decreases chars.len() - i,
    {
        let ghost all = sanitized(component@);
        let ghost before = out@;
        let ch = chars[i];
        if ch == '/' || ch == '\\' || ch == ':' || ch == '*' || ch == '?' || ch == '"' || ch == '<'
            || ch == '>' || ch == '|' {
            out.push('_');
        } else {
            out.push(ch);
        }
        assert(out@ == before.push(all[i as int]));
        assert(all.take(i + 1) == all.take(i as int).push(all[i as int]));
        i += 1;
    }
    assert(sanitized(component@).take(i as int) == sanitized(component@));
    out
}

/// The name of a directory holds no special character, and a name without one stays
/// as it is.
pub proof fn sanitized_is_plain(component: Seq<char>)
    ensures
        forall|i: int|
            0 <= i < sanitized(component).len() ==> !is_special(#[trigger] sanitized(component)[i]),
        (forall|i: int| 0 <= i < component.len() ==> !is_special(#[trigger] component[i]))
            ==> sanitized(component) == component,
{
    if forall|i: int| 0 <= i < component.len() ==> !is_special(#[trigger] component[i]) {
        assert(sanitized(component) =~= component);
    }
}

/// A repository id as a relative path.
pub fn sanitize_repo_id(repo: &str) -> (out: String)
    ensures
        out@ == sanitized_id(repo@),
{
    let pieces = split_text(repo, '/');
    let ghost all = split(repo@, '/');
    let mut parts: Vec<String> = Vec::new();
    let mut i: usize = 0;
    assert(texts(parts@) == sanitized_pieces(all.take(0)));
    while i < pieces.len()
        invariant
            i <= pieces.len(),
            texts(pieces@) == all,
            texts(parts@) == sanitized_pieces(all.take(i as int)),
        decreases pieces.len() - i,
    {
        let ghost before = texts(parts@);
        assert(texts(pieces@)[i as int] == pieces@[i as int]@);
        assert(all.take(i + 1).drop_last() == all.take(i as int));
        let chars = chars_of(pieces[i].as_str());
        if chars.len() > 0 {
            let part = sanitize_component(pieces[i].as_str());
            parts.push(part);
            assert(texts(parts@) == before.push(sanitized(all[i as int])));
        }
        i += 1;
    }
    assert(all.take(i as int) == all);
    join_texts(&parts, "/")
}

/// The directory of a download.
pub fn default_output_root(
    explicit_output: Option<&str>,
    cache_dir: &str,
    source: SourceKind,
    model: &ResolvedModel,
    platform: Platform,
) -> (out: String)
    ensures
        out@ == output_root(
            slice_text_of(explicit_output),
            cache_dir@,
            source,
            model@.source_id,
            model@.revision,
            platform,
        ),
{
    match explicit_output {
        Some(path) => path.to_owned(),
        None => {
            let place = join_path(cache_dir, source.cache_segment(), platform);
            let id = sanitize_repo_id(model.source_id.as_str());
            let repo = join_path(place.as_str(), id.as_str(), platform);
            let revision = sanitize_component(model.revision.as_str());
            join_path(repo.as_str(), revision.as_str(), platform)
        },
    }
}

/// Whether a path of a repository may be written: it says nothing of where it starts and
/// never goes up.
pub open spec fn is_safe(path: Seq<char>, platform: Platform) -> bool {
    &&& prefix_len(path, platform) == 0
    &&& platform is Unix ==> !is_rooted(path, platform)
    &&& !split(slashed(path, platform), '/').contains(".."@)
}

/// What an unsafe path is answered.
pub open spec fn unsafe_text(path: Seq<char>) -> Seq<char> {
    "repository file path is unsafe: "@ + path
}

/// The path of a repository file below the output directory, if it may be written.
pub fn ensure_relative_repo_path(path: &str, platform: Platform) -> (r: Result<String, MgetError>)
    ensures
        match r {
            Ok(relative) => is_safe(path@, platform) && relative@ == path@,
            Err(MgetError::Message(text)) => !is_safe(path@, platform) && text@ == unsafe_text(
                path@,
            ),
            Err(_) => false,
        },
{
    proof {
        lemma_prefix_len(path@, platform);
    }
    let mut bad = has_prefix(path, platform);
    if let Platform::Unix = platform {
        bad = bad || is_rooted_path(path, platform);
    }
    let ghost from = bad;
    let pieces = slash_pieces(path, platform);
    let ghost all = split(slashed(path@, platform), '/');
    let mut i: usize = 0;
    while i < pieces.len()
        invariant
            i <= pieces.len(),
            texts(pieces@) == all,
            bad == (from || all.take(i as int).contains(".."@)),
        decreases pieces.len() - i,
    {
        assert(texts(pieces@)[i as int] == pieces@[i as int]@);
        assert(all.take(i + 1) == all.take(i as int).push(all[i as int]));
        let up = same_text(pieces[i].as_str(), "..");
        proof {
            let (now, next) = (all.take(i as int), all.take(i + 1));
            if up {
                assert(next[i as int] == ".."@);
            }
            if now.contains(".."@) {
                assert(next[now.index_of(".."@)] == ".."@);
            }
            if next.contains(".."@) && !up {
                assert(now[next.index_of(".."@)] == ".."@);
            }
        }
        if up {
            bad = true;
        }
        i += 1;
    }
    assert(all.take(i as int) == all);
    if bad {
        let mut text = "repository file path is unsafe: ".to_owned();
        text.append(path);
        Err(MgetError::Message(text))
    } else {
        Ok(path.to_owned())
    }
}

/// A path that may be written stays below the directory it is written to: it goes
/// there, and then down only. On Windows that holds of the paths that go on from there.
pub proof fn safe_paths_stay_below(root: Seq<char>, path: Seq<char>, platform: Platform)
    requires
        is_safe(path, platform),
        platform is Windows ==> goes_on(root, path, platform),
    ensures
        steps(joined(root, path, platform), platform) == steps(root, platform) + steps(
            path,
            platform,
        ),
        !steps(path, platform).contains(".."@),
{
    lemma_prefix_len(path, platform);
    joined_steps(root, path, platform);
    lemma_leading_pieces_are_pieces(split(slashed(path, platform), '/'), ".."@);
}

/// Where Hugging Face tools look for a snapshot.
pub open spec fn hf_link(
    home: Seq<char>,
    id: Seq<char>,
    revision: Seq<char>,
    platform: Platform,
) -> Seq<char> {
    let cache = joined(home, ".cache"@, platform);
    let hub = joined(joined(cache, "huggingface"@, platform), "hub"@, platform);
    let repo = joined(hub, "models--"@ + replace(id, '/', "--"@), platform);
    joined(joined(repo, "snapshots"@, platform), sanitized(revision), platform)
}

/// Where ModelScope tools look for a snapshot.
pub open spec fn modelscope_link(
    home: Seq<char>,
    id: Seq<char>,
    revision: Seq<char>,
    platform: Platform,
) -> Seq<char> {
    let cache = joined(home, ".cache"@, platform);
    let hub = joined(joined(cache, "modelscope"@, platform), "hub"@, platform);
    joined(joined(hub, sanitized_id(id), platform), sanitized(revision), platform)
}

/// The links that were asked for, the one for Hugging Face first.
pub open spec fn links(
    choice: Option<LinkChoice>,
    home: Option<Seq<char>>,
    id: Seq<char>,
    revision: Seq<char>,
    platform: Platform,
) -> Seq<Seq<char>> {
    match (choice, home) {
        (Some(LinkChoice::Hf), Some(home)) => seq![hf_link(home, id, revision, platform)],
        (Some(LinkChoice::Modelscope), Some(home)) => seq![
            modelscope_link(home, id, revision, platform),
        ],
        (Some(LinkChoice::All), Some(home)) => seq![
            hf_link(home, id, revision, platform),
            modelscope_link(home, id, revision, platform),
        ],
        _ => Seq::empty(),
    }
}

/// Where Hugging Face tools look for a snapshot.
pub fn hf_cache_path(home: &str, model: &ResolvedModel, platform: Platform) -> (out: String)
    ensures
        out@ == hf_link(home@, model@.source_id, model@.revision, platform),
{
    let cache = join_path(home, ".cache", platform);
    let tool = join_path(cache.as_str(), "huggingface", platform);
    let hub = join_path(tool.as_str(), "hub", platform);
    let mut name = "models--".to_owned();
    let id = replace_char(model.source_id.as_str(), '/', "--");
    name.append(id.as_str());
    let repo = join_path(hub.as_str(), name.as_str(), platform);
    let snapshots = join_path(repo.as_str(), "snapshots", platform);
    let revision = sanitize_component(model.revision.as_str());
    join_path(snapshots.as_str(), revision.as_str(), platform)
}

/// Where ModelScope tools look for a snapshot.
pub fn modelscope_cache_path(home: &str, model: &ResolvedModel, platform: Platform) -> (out: String)
    ensures
        out@ == modelscope_link(home@, model@.source_id, model@.revision, platform),
{
    let cache = join_path(home, ".cache", platform);
    let tool = join_path(cache.as_str(), "modelscope", platform);
    let hub = join_path(tool.as_str(), "hub", platform);
    let id = sanitize_repo_id(model.source_id.as_str());
    let repo = join_path(hub.as_str(), id.as_str(), platform);
    let revision = sanitize_component(model.revision.as_str());
    join_path(repo.as_str(), revision.as_str(), platform)
}

/// The links to create for a download; none without a home directory.
pub fn compat_links(
    choice: Option<LinkChoice>,
    home: Option<&str>,
    model: &ResolvedModel,
    platform: Platform,
) -> (out: Vec<String>)
    ensures
        texts(out@) == links(
            choice,
            slice_text_of(home),
            model@.source_id,
            model@.revision,
            platform,
        ),
{
    let mut out: Vec<String> = Vec::new();
    if let (Some(choice), Some(home)) = (choice, home) {
        match choice {
            LinkChoice::Hf => {
                out.push(hf_cache_path(home, model, platform));
            },
            LinkChoice::Modelscope => {
                out.push(modelscope_cache_path(home, model, platform));
            },
            LinkChoice::All => {
                out.push(hf_cache_path(home, model, platform));
                out.push(modelscope_cache_path(home, model, platform));
            },
        }
    }
    assert(texts(out@) =~= links(
        choice,
        slice_text_of(home),
        model@.source_id,
        model@.revision,
        platform,
    ));
    out
}

/// What to do about a link.
#[derive(Debug)]
pub enum LinkStep {
    /// It is there already.
    Keep,
    /// Create it.
    Create,
    /// Something else is in its place.
    Refuse(MgetError),
}

/// Whether what is in the place of a link is that link: one that points to the target.
pub open spec fn is_right_link(
    exists: bool,
    existing: Option<Seq<char>>,
    target: Seq<char>,
    platform: Platform,
) -> bool {
    exists && (existing matches Some(found) && same_location(found, target, platform))
}

/// Decides about the link at `destination` to `target`: whether something `exists`
/// there, and where a link there points to. What is there is never replaced.
pub fn decide_link(
    destination: &str,
    exists: bool,
    existing: Option<&str>,
    target: &str,
    platform: Platform,
) -> (r: LinkStep)
    ensures
        r is Create <==> !exists,
        r is Keep <==> is_right_link(exists, slice_text_of(existing), target@, platform),
        match r {
            LinkStep::Refuse(MgetError::SymlinkConflict(path)) => path@ == destination@,
            LinkStep::Refuse(_) => false,
            _ => true,
        },
{
    if !exists {
        return LinkStep::Create;
    }
    if let Some(found) = existing {
        if same_path(found, target, platform) {
            return LinkStep::Keep;
        }
    }
    LinkStep::Refuse(MgetError::SymlinkConflict(destination.to_owned()))
}

/// A name of a directory is as long as the text it stands for and differs from it only where
/// that has a special character, which becomes an underscore.
pub proof fn special_characters_become_underscores(component: Seq<char>, i: int)
    requires
        0 <= i < component.len(),
    ensures
        sanitized(component).len() == component.len(),
        ({
            let ch = component[i];
            let special = ch == '/' || ch == '\\' || ch == ':' || ch == '*' || ch == '?' || ch == '"'
                || ch == '<' || ch == '>' || ch == '|';
            sanitized(component)[i] == (if special {
                '_'
            } else {
                ch
            })
        }),
{
}

/// The pieces of an id are taken one by one, in order: each that is not empty is the name of a
/// directory.
pub proof fn ids_are_taken_piece_by_piece(
    a: Seq<Seq<char>>,
    b: Seq<Seq<char>>,
    piece: Seq<char>,
)
    ensures
        sanitized_pieces(a + b) == sanitized_pieces(a) + sanitized_pieces(b),
        piece.len() > 0 ==> sanitized_pieces(seq![piece]) == seq![sanitized(piece)],
        sanitized_pieces(seq![Seq::<char>::empty()]) == Seq::<Seq<char>>::empty(),
    decreases b.len(),
{
    let none = Seq::<Seq<char>>::empty();
    assert(seq![piece].drop_last() =~= none);
    assert(seq![Seq::<char>::empty()].drop_last() =~= none);
    assert(sanitized_pieces(none) =~= none);
    assert(none.push(sanitized(piece)) =~= seq![sanitized(piece)]);
    if b.len() == 0 {
        assert(a + b =~= a);
        assert(sanitized_pieces(a) + sanitized_pieces(b) =~= sanitized_pieces(a));
    } else {
        assert((a + b).drop_last() =~= a + b.drop_last());
        ids_are_taken_piece_by_piece(a, b.drop_last(), piece);
        assert(sanitized_pieces(a + b) =~= sanitized_pieces(a) + sanitized_pieces(b));
    }
}

/// The path of an id has a directory for each of its pieces.
pub proof fn ids_are_nested_directories(repo: Seq<char>)
    requires
        sanitized_pieces(split(repo, '/')).len() > 0,
    ensures
        split(sanitized_id(repo), '/') == sanitized_pieces(split(repo, '/')),
        !is_rooted(sanitized_id(repo), Platform::Unix),
{
    reveal_strlit("/");
    assert("/"@ =~= seq!['/']);
    let pieces = sanitized_pieces(split(repo, '/'));
    lemma_sanitized_pieces(split(repo, '/'));
    lemma_split_join(pieces, '/');
    lemma_join_split(sanitized_id(repo), '/');
    let text = sanitized_id(repo);
    if is_rooted(text, Platform::Unix) {
        assert(text =~= Seq::<char>::empty().push('/') + text.skip(1));
        cutting_is_at_the_first(text, '/', Seq::empty(), text.skip(1));
        assert(split(text, '/')[0] =~= Seq::<char>::empty());
        assert(pieces[0].len() > 0);
    }
}

/// No directory of an id has an empty name or one with a slash in it.
proof fn lemma_sanitized_pieces(pieces: Seq<Seq<char>>)
    ensures
        forall|k: int|
            0 <= k < sanitized_pieces(pieces).len() ==> !(#[trigger] sanitized_pieces(
                pieces,
            )[k]).contains('/'),
        forall|k: int|
            0 <= k < sanitized_pieces(pieces).len() ==> (#[trigger] sanitized_pieces(pieces)[k]).len()
                > 0,
    decreases pieces.len(),
{
    if pieces.len() > 0 {
        lemma_sanitized_pieces(pieces.drop_last());
        let (before, all) = (sanitized_pieces(pieces.drop_last()), sanitized_pieces(pieces));
        lemma_sanitized_has_no_slash(pieces.last());
        assert forall|k: int| 0 <= k < all.len() implies !(#[trigger] all[k]).contains('/') by {
            if k < before.len() {
                assert(all[k] == before[k]);
            }
        }
        assert forall|k: int| 0 <= k < all.len() implies (#[trigger] all[k]).len() > 0 by {
            if k < before.len() {
                assert(all[k] == before[k]);
            }
        }
    }
}

/// The name of a directory has no slash in it.
proof fn lemma_sanitized_has_no_slash(component: Seq<char>)
    ensures
        !sanitized(component).contains('/'),
        !is_rooted(sanitized(component), Platform::Unix),
{
    sanitized_is_plain(component);
    let name = sanitized(component);
    if name.contains('/') {
        assert(is_special(name[name.index_of('/')]));
    }
    if name.len() > 0 {
        assert(!is_special(name[0]));
    }
}

/// The path of an id does not start at the root.
proof fn lemma_id_is_relative(id: Seq<char>)
    ensures
        !is_rooted(sanitized_id(id), Platform::Unix),
{
    if sanitized_pieces(split(id, '/')).len() > 0 {
        ids_are_nested_directories(id);
    } else {
        assert(sanitized_id(id).len() == 0);
    }
}

/// A download goes where it was asked to go; on Unix it goes else from the cache down to the
/// source, then to the repository, and then to the revision.
pub proof fn downloads_have_their_places(
    path: Seq<char>,
    cache_dir: Seq<char>,
    source: SourceKind,
    id: Seq<char>,
    revision: Seq<char>,
    platform: Platform,
)
    ensures
        output_root(Some(path), cache_dir, source, id, revision, platform) == path,
        steps(
            output_root(None, cache_dir, source, id, revision, Platform::Unix),
            Platform::Unix,
        ) == steps(cache_dir, Platform::Unix) + seq![source.segment_text()] + steps(
            sanitized_id(id),
            Platform::Unix,
        ) + steps(sanitized(revision), Platform::Unix),
{
    reveal_strlit("huggingface");
    reveal_strlit("hf-mirror");
    reveal_strlit("modelscope");
    reveal_strlit(".");
    let unix = Platform::Unix;
    let name = source.segment_text();
    assert(name.len() > 1);
    assert(!name.contains('/'));
    lemma_one_step(name);
    lemma_id_is_relative(id);
    lemma_sanitized_has_no_slash(revision);
    let place = joined(cache_dir, name, unix);
    let repo = joined(place, sanitized_id(id), unix);
    joined_steps(cache_dir, name, unix);
    joined_steps(place, sanitized_id(id), unix);
    joined_steps(repo, sanitized(revision), unix);
}

/// On Unix a path may be written exactly if it does not start with a slash and none of its
/// pieces is `..`.
pub proof fn relative_paths_are_safe(path: Seq<char>)
    ensures
        is_safe(path, Platform::Unix) <==> {
            &&& path.len() == 0 || path[0] != '/'
            &&& forall|i: int|
                0 <= i < split(path, '/').len() ==> #[trigger] split(path, '/')[i] != ".."@
        },
{
    assert(slashed(path, Platform::Unix) =~= path);
    let pieces = split(path, '/');
    if pieces.contains(".."@) {
        assert(pieces[pieces.index_of(".."@)] == ".."@);
    }
}

/// On Windows a path with a drive may not be written, nor one that goes up between separators of
/// either kind; one that starts with neither a drive nor two separators and never goes up may.
pub proof fn windows_paths_are_refused(path: Seq<char>, a: Seq<char>, b: Seq<char>, x: char, y: char)
    requires
        x == '/' || x == '\\',
        y == '/' || y == '\\',
    ensures
        path.len() >= 2 && path[1] == ':' && ('a' <= path[0] <= 'z' || 'A' <= path[0] <= 'Z')
            ==> !is_safe(path, Platform::Windows),
        !is_safe(a.push(x) + ".."@.push(y) + b, Platform::Windows),
        !is_safe(".."@.push(y) + b, Platform::Windows),
        !is_safe(a.push(x) + ".."@, Platform::Windows),
        path.len() < 2 || (path[1] != ':' && path[1] != '/' && path[1] != '\\') ==> (is_safe(
            path,
            Platform::Windows,
        ) <==> !split(slashed(path, Platform::Windows), '/').contains(".."@)),
{
    reveal_strlit("..");
    let windows = Platform::Windows;
    let up = ".."@;
    let none = Seq::<char>::empty();
    let (s, t) = (slashed(a, windows), slashed(b, windows));
    assert(slashed(up, windows) =~= up);
    assert(first_index(up, '/') == 2) by {
        lemma_first_index_is(up, '/', 2);
    }
    assert(split(up, '/') =~= seq![up]);
    lemma_split_concat(up, t, '/');
    lemma_split_concat(s, up.push('/') + t, '/');
    lemma_split_concat(s, up, '/');
    let first = a.push(x) + up.push(y) + b;
    assert(slashed(first, windows) =~= s.push('/') + (up.push('/') + t));
    let k = split(s, '/').len() as int;
    assert(split(slashed(first, windows), '/')[k] == up);
    let second = up.push(y) + b;
    assert(slashed(second, windows) =~= up.push('/') + t);
    assert(split(slashed(second, windows), '/')[0] == up);
    let third = a.push(x) + up;
    assert(slashed(third, windows) =~= s.push('/') + up);
    assert(split(slashed(third, windows), '/')[k] == up);
    lemma_prefix_len(path, windows);
    let text = slashed(path, windows);
    if path.len() >= 2 {
        assert(text[0] == path[0] || text[0] == '/');
        assert(text[1] == path[1] || text[1] == '/');
    }
}

/// The links for both tools are those for the one and those for the other, and without a home
/// directory or a wish there are none.
pub proof fn links_are_as_wished(
    home: Option<Seq<char>>,
    id: Seq<char>,
    revision: Seq<char>,
    choice: Option<LinkChoice>,
    platform: Platform,
)
    ensures
        links(Some(LinkChoice::All), home, id, revision, platform) == links(
            Some(LinkChoice::Hf),
            home,
            id,
            revision,
            platform,
        ) + links(Some(LinkChoice::Modelscope), home, id, revision, platform),
        links(None, home, id, revision, platform).len() == 0,
        links(choice, None, id, revision, platform).len() == 0,
        home matches Some(dir) ==> {
            &&& links(Some(LinkChoice::Hf), home, id, revision, platform) == seq![
                hf_link(dir, id, revision, platform),
            ]
            &&& links(Some(LinkChoice::Modelscope), home, id, revision, platform) == seq![
                modelscope_link(dir, id, revision, platform),
            ]
        },
{
    let all = links(Some(LinkChoice::All), home, id, revision, platform);
    assert(all =~= links(Some(LinkChoice::Hf), home, id, revision, platform) + links(
        Some(LinkChoice::Modelscope),
        home,
        id,
        revision,
        platform,
    ));
}

/// A text without `ch` in what replaces it has none after replacing.
proof fn lemma_replaced(s: Seq<char>, ch: char, with: Seq<char>)
    requires
        !with.contains(ch),
    ensures
        !replace(s, ch, with).contains(ch),
    decreases s.len(),
{
    if s.len() > 0 {
        let before = replace(s.drop_last(), ch, with);
        let all = replace(s, ch, with);
        lemma_replaced(s.drop_last(), ch, with);
        if all.contains(ch) {
            let i = all.index_of(ch);
            if i < before.len() {
                assert(before[i] == ch);
            } else if s.last() == ch {
                assert(with[i - before.len()] == ch);
            }
        }
    }
}

/// On Unix the links are reached from the home directory by the steps that the two tools take:
/// Hugging Face tools by the id in one name, ModelScope tools by one directory for each piece of
/// it, and both by the revision in the end.
pub proof fn links_are_where_the_tools_look(home: Seq<char>, id: Seq<char>, revision: Seq<char>)
    ensures
        steps(hf_link(home, id, revision, Platform::Unix), Platform::Unix) == steps(
            home,
            Platform::Unix,
        ) + seq![".cache"@, "huggingface"@, "hub"@, "models--"@ + replace(id, '/', "--"@), "snapshots"@]
            + steps(sanitized(revision), Platform::Unix),
        steps(modelscope_link(home, id, revision, Platform::Unix), Platform::Unix) == steps(
            home,
            Platform::Unix,
        ) + seq![".cache"@, "modelscope"@, "hub"@] + steps(sanitized_id(id), Platform::Unix) + steps(
            sanitized(revision),
            Platform::Unix,
        ),
{
    reveal_strlit(".");
    reveal_strlit("--");
    reveal_strlit(".cache");
    reveal_strlit("huggingface");
    reveal_strlit("modelscope");
    reveal_strlit("hub");
    reveal_strlit("models--");
    reveal_strlit("snapshots");
    let unix = Platform::Unix;
    let name = "models--"@ + replace(id, '/', "--"@);
    lemma_replaced(id, '/', "--"@);
    assert(!name.contains('/')) by {
        if name.contains('/') {
            let i = name.index_of('/');
            if i >= 8 {
                assert(replace(id, '/', "--"@)[i - 8] == '/');
            }
        }
    }
    assert("."@.len() == 1);
    lemma_one_step(".cache"@);
    lemma_one_step("huggingface"@);
    lemma_one_step("modelscope"@);
    lemma_one_step("hub"@);
    lemma_one_step(name);
    lemma_one_step("snapshots"@);
    lemma_sanitized_has_no_slash(revision);
    lemma_id_is_relative(id);
    let start = steps(home, unix);
    let end = steps(sanitized(revision), unix);
    let cache = joined(home, ".cache"@, unix);
    joined_steps(home, ".cache"@, unix);
    let a = joined(cache, "huggingface"@, unix);
    joined_steps(cache, "huggingface"@, unix);
    let hub = joined(a, "hub"@, unix);
    joined_steps(a, "hub"@, unix);
    let repo = joined(hub, name, unix);
    joined_steps(hub, name, unix);
    let snapshots = joined(repo, "snapshots"@, unix);
    joined_steps(repo, "snapshots"@, unix);
    joined_steps(snapshots, sanitized(revision), unix);
    assert(start + seq![".cache"@] + seq!["huggingface"@] + seq!["hub"@] + seq![name] + seq![
        "snapshots"@,
    ] + end =~= start + seq![".cache"@, "huggingface"@, "hub"@, name, "snapshots"@] + end);
    let b = joined(cache, "modelscope"@, unix);
    joined_steps(cache, "modelscope"@, unix);
    let other = joined(b, "hub"@, unix);
    joined_steps(b, "hub"@, unix);
    let place = joined(other, sanitized_id(id), unix);
    joined_steps(other, sanitized_id(id), unix);
    joined_steps(place, sanitized(revision), unix);
    let middle = steps(sanitized_id(id), unix);
    assert(start + seq![".cache"@] + seq!["modelscope"@] + seq!["hub"@] + middle + end =~= start
        + seq![".cache"@, "modelscope"@, "hub"@] + middle + end);
}

/// On Unix two paths name the same place only if both start at the root or neither does and they
/// take the same steps; a slash at the end makes no difference.
pub proof fn same_places_take_the_same_steps(a: Seq<char>, b: Seq<char>)
    ensures
        same_location(a, a, Platform::Unix),
        same_location(a, b, Platform::Unix) ==> steps(a, Platform::Unix) == steps(b, Platform::Unix)
            && is_rooted(a, Platform::Unix) == is_rooted(b, Platform::Unix),
        a.len() > 0 ==> same_location(a.push('/'), a, Platform::Unix),
{
    let unix = Platform::Unix;
    assert(slashed(a, unix) =~= a && slashed(b, unix) =~= b);
    assert(a.skip(0) =~= a && b.skip(0) =~= b);
    if a.len() > 0 {
        let c = a.push('/');
        assert(slashed(c, unix) =~= c);
        assert(c.skip(0) =~= c);
        crate::reach::lemma_outer_separators(a, '/');
        let none = Seq::<char>::empty();
        assert(c + none =~= c);
        lemma_split_concat(a, none, '/');
        lemma_join_split(a, '/');
        assert(split(c, '/')[0] == split(a, '/')[0]);
        assert(c.take(0) =~= a.take(0));
    }
}

/// What is there is taken for the link exactly if it is one that points to the target: never a
/// directory or a file, and on Unix never a link to where other steps lead.
pub proof fn only_the_link_is_kept(found: Seq<char>, target: Seq<char>, platform: Platform)
    ensures
        is_right_link(true, Some(target), target, platform),
        !is_right_link(true, None, target, platform),
        !is_right_link(false, Some(found), target, platform),
        steps(found, Platform::Unix) != steps(target, Platform::Unix) ==> !is_right_link(
            true,
            Some(found),
            target,
            Platform::Unix,
        ),
{
    same_places_take_the_same_steps(found, target);
}

/// The message about a path ends in the path, behind words that do not depend on it.
pub proof fn unsafe_paths_are_named(path: Seq<char>)
    ensures
        unsafe_text(path) == "repository file path is unsafe: "@ + path,
        unsafe_text(path).skip(unsafe_text(Seq::empty()).len() as int) == path,
{
    assert(unsafe_text(path).skip(unsafe_text(Seq::empty()).len() as int) =~= path);
}

} // verus!
