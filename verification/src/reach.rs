//! Where joined paths lead.

use vstd::prelude::*;

use crate::paths::{
    is_bare_drive, is_rooted, is_separator, is_verbatim, joined, leading_pieces, lemma_prefix_len,
    pieces, prefix_len, slashed, solid_pieces, steps, verbatim_prefix_len, walked, Platform,
};
use crate::text::{
    first_index, join, lemma_first_index, lemma_first_index_is, lemma_split_concat,
    lemma_split_join, lemma_split_pieces, split,
};

verus! {

/// Whether `path`, seen from `base`, goes on where `base` leads. On Unix every path does that
/// does not start at the root. On Windows it does not where it names what it starts at, where
/// it starts with a separator and `base` leads on from what it starts at, where `base` is a bare
/// drive that the path would run into, where the two make a verbatim path out of `\\?` or `\\`
/// in which `/` no longer separates, and where a verbatim `base` has its names taken back.
pub open spec fn goes_on(base: Seq<char>, path: Seq<char>, platform: Platform) -> bool {
    &&& prefix_len(path, platform) == 0
    &&& is_rooted(path, platform) ==> steps(base, platform) == steps(
        base.take(prefix_len(base, platform)),
        platform,
    )
    &&& path.len() > 0 && !is_rooted(path, platform) ==> !is_bare_drive(base, platform)
    &&& is_verbatim(joined(base, path, platform), platform) && !is_verbatim(base, platform)
        ==> !path.contains('/')
    &&& is_verbatim(base, platform) ==> !pieces(path, platform).contains(".."@)
}

/// The pieces that lead somewhere, of two lists one after the other.
proof fn lemma_leading_concat(a: Seq<Seq<char>>, b: Seq<Seq<char>>)
    ensures
        leading_pieces(a + b) == leading_pieces(a) + leading_pieces(b),
    decreases b.len(),
{
    if b.len() == 0 {
        assert(a + b =~= a);
        assert(leading_pieces(a) + leading_pieces(b) =~= leading_pieces(a));
    } else {
        assert((a + b).drop_last() =~= a + b.drop_last());
        lemma_leading_concat(a, b.drop_last());
        assert(leading_pieces(a + b) =~= leading_pieces(a) + leading_pieces(b));
    }
}

/// The pieces that lead somewhere are pieces.
pub proof fn lemma_leading_pieces_are_pieces(pieces: Seq<Seq<char>>, piece: Seq<char>)
    requires
        !pieces.contains(piece),
    ensures
        !leading_pieces(pieces).contains(piece),
    decreases pieces.len(),
{
    if pieces.len() > 0 {
        let before = pieces.drop_last();
        if before.contains(piece) {
            assert(pieces[before.index_of(piece)] == piece);
        }
        assert(pieces[pieces.len() - 1] != piece);
        lemma_leading_pieces_are_pieces(before, piece);
        let kept = leading_pieces(pieces);
        let earlier = leading_pieces(before);
        if kept.contains(piece) {
            let k = kept.index_of(piece);
            if k < earlier.len() {
                assert(earlier[k] == piece);
            }
        }
    }
}

/// The pieces that lead somewhere all do.
proof fn lemma_leading_twice(pieces: Seq<Seq<char>>)
    ensures
        leading_pieces(leading_pieces(pieces)) == leading_pieces(pieces),
        leading_pieces(solid_pieces(pieces)) == leading_pieces(pieces),
    decreases pieces.len(),
{
    if pieces.len() > 0 {
        lemma_leading_twice(pieces.drop_last());
        let (lead, solid) = (
            leading_pieces(pieces.drop_last()),
            solid_pieces(pieces.drop_last()),
        );
        assert(lead.push(pieces.last()).drop_last() =~= lead);
        assert(solid.push(pieces.last()).drop_last() =~= solid);
    }
}

/// Without `..`, walking adds the pieces that lead somewhere.
proof fn lemma_walked(start: Seq<Seq<char>>, pieces: Seq<Seq<char>>)
    requires
        !pieces.contains(".."@),
    ensures
        walked(start, pieces) == start + leading_pieces(pieces),
    decreases pieces.len(),
{
    if pieces.len() == 0 {
        assert(start + leading_pieces(pieces) =~= start);
    } else {
        let before = pieces.drop_last();
        if before.contains(".."@) {
            assert(pieces[before.index_of(".."@)] == ".."@);
        }
        assert(pieces[pieces.len() - 1] != ".."@);
        lemma_walked(start, before);
        assert(walked(start, pieces) =~= start + leading_pieces(pieces));
    }
}

/// No kept piece holds a character that no piece holds.
proof fn lemma_kept_without(pieces: Seq<Seq<char>>, ch: char)
    requires
        forall|k: int| 0 <= k < pieces.len() ==> !(#[trigger] pieces[k]).contains(ch),
    ensures
        forall|k: int|
            0 <= k < leading_pieces(pieces).len() ==> !(#[trigger] leading_pieces(
                pieces,
            )[k]).contains(ch),
        forall|k: int|
            0 <= k < solid_pieces(pieces).len() ==> !(#[trigger] solid_pieces(
                pieces,
            )[k]).contains(ch),
    decreases pieces.len(),
{
    if pieces.len() > 0 {
        let before = pieces.drop_last();
        assert forall|k: int| 0 <= k < before.len() implies !(#[trigger] before[k]).contains(ch) by {
            assert(before[k] == pieces[k]);
        }
        lemma_kept_without(before, ch);
        assert(!pieces[pieces.len() - 1].contains(ch));
        let (lead, solid) = (leading_pieces(pieces), solid_pieces(pieces));
        assert forall|k: int| 0 <= k < lead.len() implies !(#[trigger] lead[k]).contains(ch) by {
            if k < leading_pieces(before).len() {
                assert(lead[k] == leading_pieces(before)[k]);
            }
        }
        assert forall|k: int| 0 <= k < solid.len() implies !(#[trigger] solid[k]).contains(ch) by {
            if k < solid_pieces(before).len() {
                assert(solid[k] == solid_pieces(before)[k]);
            }
        }
    }
}

/// An empty text leads nowhere.
proof fn lemma_empty(sep: char)
    ensures
        split(Seq::empty(), sep) == seq![Seq::<char>::empty()],
        leading_pieces(split(Seq::empty(), sep)) == Seq::<Seq<char>>::empty(),
{
    let none = Seq::<char>::empty();
    assert(split(none, sep) =~= seq![none]);
    assert(seq![none].drop_last() =~= Seq::<Seq<char>>::empty());
    assert(seq![none].last().len() == 0);
    assert(leading_pieces(Seq::<Seq<char>>::empty()) =~= Seq::empty());
    assert(leading_pieces(seq![none]) =~= Seq::empty());
}

/// Two texts with a separator between them lead where the first leads and then where the
/// second does.
proof fn lemma_leads(a: Seq<char>, b: Seq<char>, sep: char)
    ensures
        leading_pieces(split(a.push(sep) + b, sep)) == leading_pieces(split(a, sep))
            + leading_pieces(split(b, sep)),
{
    lemma_split_concat(a, b, sep);
    lemma_leading_concat(split(a, sep), split(b, sep));
}

/// A separator in the first or the last place leads nowhere.
pub proof fn lemma_outer_separators(text: Seq<char>, sep: char)
    ensures
        leading_pieces(split(text.push(sep), sep)) == leading_pieces(split(text, sep)),
        leading_pieces(split(seq![sep] + text, sep)) == leading_pieces(split(text, sep)),
{
    let none = Seq::<char>::empty();
    lemma_empty(sep);
    lemma_leads(text, none, sep);
    lemma_leads(none, text, sep);
    assert(text.push(sep) + none =~= text.push(sep));
    assert(none.push(sep) + text =~= seq![sep] + text);
    let lead = leading_pieces(split(text, sep));
    assert(lead + Seq::<Seq<char>>::empty() =~= lead);
    assert(Seq::<Seq<char>>::empty() + lead =~= lead);
}

/// Without a `/` in it, a path has the same pieces whether `\` or any separator is meant.
proof fn lemma_one_separator(path: Seq<char>)
    requires
        !path.contains('/'),
    ensures
        split(slashed(path, Platform::Windows), '/') == split(path, '\\'),
    decreases path.len(),
{
    let text = slashed(path, Platform::Windows);
    lemma_first_index(path, '\\');
    let i = first_index(path, '\\');
    assert forall|j: int| 0 <= j < i implies text[j] != '/' by {
        assert(path.contains(path[j]));
    }
    lemma_first_index_is(text, '/', i);
    if i < path.len() {
        let rest = path.skip(i + 1);
        if rest.contains('/') {
            assert(path[i + 1 + rest.index_of('/')] == '/');
        }
        lemma_one_separator(rest);
        assert(text.skip(i + 1) =~= slashed(rest, Platform::Windows));
        assert(text.take(i) =~= path.take(i)) by {
            assert forall|j: int| 0 <= j < i implies text[j] == path[j] by {
                assert(path.contains(path[j]));
            }
        }
    } else {
        assert(text =~= path) by {
            assert forall|j: int| 0 <= j < i implies text[j] == path[j] by {
                assert(path.contains(path[j]));
            }
        }
    }
}

/// A path without anything it starts at is not verbatim.
proof fn lemma_no_prefix(path: Seq<char>, platform: Platform)
    requires
        prefix_len(path, platform) == 0,
    ensures
        !is_verbatim(path, platform),
        steps(path, platform) == leading_pieces(split(slashed(path, platform), '/')),
{
    lemma_prefix_len(path, platform);
}

/// What the texts say of a path that goes on behind a base that is not verbatim.
proof fn lemma_texts_go_on(base: Seq<char>, path: Seq<char>, platform: Platform)
    requires
        goes_on(base, path, platform),
        !is_verbatim(base, platform),
    ensures
        leading_pieces(split(slashed(joined(base, path, platform), platform), '/')) == steps(
            base,
            platform,
        ) + steps(path, platform),
{
    reveal_strlit("/");
    reveal_strlit("\\");
    lemma_no_prefix(path, platform);
    lemma_prefix_len(base, platform);
    lemma_empty('/');
    let none = Seq::<char>::empty();
    let (start, text) = (slashed(base, platform), slashed(path, platform));
    let whole = slashed(joined(base, path, platform), platform);
    if is_rooted(path, platform) {
        let kept = base.take(prefix_len(base, platform));
        let rest = text.skip(1);
        assert(!is_verbatim(kept, platform));
        assert(text =~= seq!['/'] + rest);
        assert(whole =~= slashed(kept, platform).push('/') + rest);
        lemma_leads(slashed(kept, platform), rest, '/');
        lemma_outer_separators(rest, '/');
    } else if base.len() == 0 {
        assert(whole =~= text);
        assert(start =~= none);
        assert(steps(base, platform) + steps(path, platform) =~= steps(path, platform));
    } else if is_separator(base.last(), platform) {
        let before = start.drop_last();
        assert(start =~= before.push('/'));
        assert(whole =~= before.push('/') + text);
        lemma_leads(before, text, '/');
        lemma_outer_separators(before, '/');
    } else if is_bare_drive(base, platform) {
        assert(path =~= none);
        assert(text =~= none);
        assert(whole =~= start);
        assert(steps(base, platform) + steps(path, platform) =~= steps(base, platform));
    } else {
        assert(whole =~= start.push('/') + text);
        lemma_leads(start, text, '/');
    }
}

/// A path that makes a verbatim path out of a base that is not goes on behind it, too.
proof fn lemma_new_verbatim(base: Seq<char>, path: Seq<char>, platform: Platform)
    requires
        goes_on(base, path, platform),
        !is_verbatim(base, platform),
        is_verbatim(joined(base, path, platform), platform),
    ensures
        !joined(base, path, platform).contains('/'),
{
    reveal_strlit("\\");
    lemma_no_prefix(path, platform);
    lemma_prefix_len(base, platform);
    let whole = joined(base, path, platform);
    if is_rooted(path, platform) {
        let n = prefix_len(base, platform);
        if n == 0 {
            assert(whole =~= path);
        } else if n == 2 {
            assert(whole[1] == base[1]);
        } else {
            assert(forall|i: int| 0 <= i < 4 ==> whole[i] == base[i]);
        }
    } else {
        assert(forall|i: int| 0 <= i < base.len() ==> whole[i] == base[i]);
        if base.len() >= 4 {
            assert(whole[0] == base[0] && whole[1] == base[1] && whole[2] == base[2] && whole[3]
                == base[3]);
        }
        if whole.contains('/') {
            let i = whole.index_of('/');
            if i >= base.len() {
                assert(path.contains('/')) by {
                    let j = if whole.len() == base.len() + path.len() {
                        i - base.len()
                    } else {
                        i - base.len() - 1
                    };
                    assert(path[j] == '/');
                }
            }
        }
    }
}

/// A path goes on behind a verbatim base.
proof fn lemma_verbatim_goes_on(base: Seq<char>, path: Seq<char>)
    requires
        goes_on(base, path, Platform::Windows),
        is_verbatim(base, Platform::Windows),
        path.len() > 0,
    ensures
        steps(joined(base, path, Platform::Windows), Platform::Windows) == steps(
            base,
            Platform::Windows,
        ) + steps(path, Platform::Windows),
{
    reveal_strlit("\\");
    let platform = Platform::Windows;
    let n = verbatim_prefix_len(base);
    let none = Seq::<Seq<char>>::empty();
    lemma_no_prefix(path, platform);
    lemma_prefix_len(base, platform);
    lemma_empty('\\');
    let kept = base.take(n);
    let rest = base.skip(n);
    let added = split(slashed(path, platform), '/');
    let rooted = is_rooted(path, platform);
    let start = if rooted {
        none
    } else {
        solid_pieces(split(rest, '\\'))
    };
    let parts = walked(start, added);
    let whole = joined(base, path, platform);
    lemma_walked(start, added);
    lemma_leading_concat(start, leading_pieces(added));
    lemma_leading_twice(added);
    lemma_leading_twice(split(rest, '\\'));
    assert(leading_pieces(parts) == leading_pieces(start) + steps(path, platform));

    // The base leads where what it starts at leads and then where the rest does.
    assert(is_verbatim(kept, platform));
    assert(steps(base, platform) == steps(kept, platform) + leading_pieces(split(rest, '\\'))) by {
        if rest.len() > 0 {
            let inner = rest.skip(1);
            assert(base =~= kept.push('\\') + inner);
            assert(rest =~= seq!['\\'] + inner);
            lemma_leads(kept, inner, '\\');
            lemma_outer_separators(inner, '\\');
        } else {
            assert(base =~= kept);
            assert(rest =~= Seq::<char>::empty());
            assert(steps(kept, platform) + none =~= steps(kept, platform));
        }
    }
    assert(steps(base, platform) == steps(kept, platform) + leading_pieces(start)) by {
        if rooted {
            assert(steps(kept, platform) + none =~= steps(kept, platform));
        }
    }
    assert(steps(kept, platform) + leading_pieces(parts) =~= steps(base, platform) + steps(
        path,
        platform,
    ));

    // The joined path leads where what the base starts at leads and then where the parts do.
    if parts.len() > 0 {
        lemma_parts_without(rest, path, start);
        assert("\\"@ =~= seq!['\\']);
        lemma_split_join(parts, '\\');
        lemma_leads(kept, join(parts, "\\"@), '\\');
        assert(whole =~= kept.push('\\') + join(parts, "\\"@));
        assert(is_verbatim(whole, platform));
    } else {
        assert(parts =~= none);
        assert(steps(kept, platform) + none =~= steps(kept, platform));
        if rooted || n < base.len() {
            lemma_outer_separators(kept, '\\');
            assert(whole =~= kept.push('\\'));
            assert(is_verbatim(whole, platform));
        } else {
            assert(whole =~= kept);
        }
    }
}

/// The parts of a joined verbatim path hold no separator.
proof fn lemma_parts_without(rest: Seq<char>, path: Seq<char>, start: Seq<Seq<char>>)
    requires
        start == Seq::<Seq<char>>::empty() || start == solid_pieces(split(rest, '\\')),
        !split(slashed(path, Platform::Windows), '/').contains(".."@),
    ensures
        ({
            let parts = walked(start, split(slashed(path, Platform::Windows), '/'));
            forall|k: int| 0 <= k < parts.len() ==> !(#[trigger] parts[k]).contains('\\')
        }),
{
    let text = slashed(path, Platform::Windows);
    let (own, added) = (split(rest, '\\'), split(text, '/'));
    lemma_split_pieces(rest, '\\');
    assert forall|k: int| 0 <= k < own.len() implies !(#[trigger] own[k]).contains('\\') by {
        if own[k].contains('\\') {
            let j = own[k].index_of('\\');
            assert(own[k][j] == '\\');
        }
    }
    lemma_kept_without(own, '\\');
    assert(!text.contains('\\'));
    lemma_split_within(text, '/', '\\');
    lemma_kept_without(added, '\\');
    lemma_walked(start, added);
    let parts = walked(start, added);
    assert forall|k: int| 0 <= k < parts.len() implies !(#[trigger] parts[k]).contains('\\') by {
        if k >= start.len() {
            assert(parts[k] == leading_pieces(added)[k - start.len()]);
        } else {
            assert(parts[k] == start[k]);
        }
    }
}

/// The pieces of a text hold nothing that the text does not.
proof fn lemma_split_within(text: Seq<char>, sep: char, ch: char)
    requires
        !text.contains(ch),
    ensures
        forall|k: int|
            0 <= k < split(text, sep).len() ==> !(#[trigger] split(text, sep)[k]).contains(ch),
    decreases text.len(),
{
    lemma_first_index(text, sep);
    let i = first_index(text, sep);
    let all = split(text, sep);
    if i < text.len() {
        let rest = text.skip(i + 1);
        if rest.contains(ch) {
            assert(text[i + 1 + rest.index_of(ch)] == ch);
        }
        lemma_split_within(rest, sep, ch);
        if text.take(i).contains(ch) {
            assert(text[text.take(i).index_of(ch)] == ch);
        }
        assert forall|k: int| 0 <= k < all.len() implies !(#[trigger] all[k]).contains(ch) by {
            if k > 0 {
                assert(all[k] == split(rest, sep)[k - 1]);
            } else {
                assert(all[k] == text.take(i));
            }
        }
    }
}

/// A path that goes on where a base leads takes the steps of the base and then its own.
pub proof fn joined_steps(base: Seq<char>, path: Seq<char>, platform: Platform)
    requires
        goes_on(base, path, platform),
    ensures
        steps(joined(base, path, platform), platform) == steps(base, platform) + steps(
            path,
            platform,
        ),
{
    let whole = joined(base, path, platform);
    lemma_no_prefix(path, platform);
    if !is_verbatim(base, platform) {
        lemma_texts_go_on(base, path, platform);
        if is_verbatim(whole, platform) {
            lemma_new_verbatim(base, path, platform);
            lemma_one_separator(whole);
        }
    } else if path.len() > 0 {
        lemma_verbatim_goes_on(base, path);
    } else {
        reveal_strlit("\\");
        let none = Seq::<char>::empty();
        lemma_empty('/');
        assert(path =~= none);
        assert(slashed(path, platform) =~= none);
        assert(steps(base, platform) + steps(path, platform) =~= steps(base, platform));
        if is_separator(base.last(), platform) {
            assert(whole =~= base);
        } else {
            lemma_outer_separators(base, '\\');
            assert(whole =~= base.push('\\'));
        }
    }
}

/// On Unix a name without a separator is one step.
pub proof fn lemma_one_step(name: Seq<char>)
    requires
        name.len() > 0,
        !name.contains('/'),
        name != "."@,
    ensures
        steps(name, Platform::Unix) == seq![name],
        !is_rooted(name, Platform::Unix),
{
    let platform = Platform::Unix;
    assert(slashed(name, platform) =~= name);
    lemma_first_index(name, '/');
    if first_index(name, '/') < name.len() {
        assert(name.contains(name[first_index(name, '/')]));
    }
    assert(split(name, '/') =~= seq![name]);
    assert(seq![name].drop_last() =~= Seq::<Seq<char>>::empty());
    assert(leading_pieces(Seq::<Seq<char>>::empty()) =~= Seq::empty());
    assert(leading_pieces(seq![name]) =~= seq![name]);
    assert(name.contains(name[0]));
}

/// On Unix a path that does not start at the root stands behind the one it is joined to, with
/// one slash between them, and one that does replaces it.
pub proof fn joined_paths_stand_behind(base: Seq<char>, path: Seq<char>)
    ensures
        path.len() > 0 && path[0] == '/' ==> joined(base, path, Platform::Unix) == path,
        path.len() == 0 || path[0] != '/' ==> {
            &&& base.len() == 0 ==> joined(base, path, Platform::Unix) == path
            &&& base.len() > 0 && base[base.len() - 1] == '/' ==> joined(base, path, Platform::Unix)
                == base + path
            &&& base.len() > 0 && base[base.len() - 1] != '/' ==> joined(base, path, Platform::Unix)
                == base.push('/') + path
        },
{
    reveal_strlit("/");
    assert(base.take(0) + path =~= path);
    assert(base.len() == 0 ==> base + path =~= path);
    assert(base + "/"@ + path =~= base.push('/') + path);
}

} // verus!
