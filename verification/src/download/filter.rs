//! The choice of the files of a repository by path.

use vstd::prelude::*;

use crate::cli::DownloadArgs;
use crate::download::glob::{
    any_matches, are_accepted, build_glob_set, can_build, compiles, first_problem, is_set_failure,
    pattern_matches, set_backslash, set_patterns, set_verdict, verdict_of,
};
use crate::error::{Failure, MgetError};
use crate::source::{file_views, FileView, RemoteFile};
use crate::text::{same_text, texts};

verus! {

/// What a list of patterns says of a path: nothing when it is empty, else whether one of
/// them matches.
pub open spec fn verdict(patterns: Seq<Seq<char>>, path: Seq<char>, backslash: bool) -> Option<
    bool,
> {
    if patterns.len() == 0 {
        None
    } else {
        Some(any_matches(patterns, path, backslash))
    }
}

/// Whether a file is downloaded: its path is one of the wanted ones, where there are any;
/// it is included, where there are patterns for that; and it is not excluded.
pub open spec fn is_kept(
    wanted: Seq<Seq<char>>,
    path: Seq<char>,
    included: Option<bool>,
    excluded: Option<bool>,
) -> bool {
    (wanted.len() == 0 || wanted.contains(path)) && included != Some(false) && excluded != Some(
        true,
    )
}

/// Whether a file is downloaded, from what the patterns say of its path.
pub fn keep_file(wanted: &Vec<String>, path: &str, included: Option<bool>, excluded: Option<bool>)
    -> (r: bool)
    ensures
        r == is_kept(texts(wanted@), path@, included, excluded),
{
    let mut found = wanted.len() == 0;
    let ghost all = texts(wanted@);
    let mut i: usize = 0;
    while i < wanted.len()
        invariant
            i <= wanted.len(),
            all == texts(wanted@),
            found == (all.len() == 0 || all.take(i as int).contains(path@)),
        decreases wanted.len() - i,
    {
        assert(all[i as int] == wanted@[i as int]@);
        let same = same_text(wanted[i].as_str(), path);
        proof {
            let (now, next) = (all.take(i as int), all.take(i + 1));
            if same {
                assert(next[i as int] == path@);
            }
            if now.contains(path@) {
                assert(next[now.index_of(path@)] == path@);
            }
            if next.contains(path@) && !same {
                assert(now[next.index_of(path@)] == path@);
            }
        }
        if same {
            found = true;
        }
        i += 1;
    }
    assert(all.take(i as int) =~= all);
    let kept = match included {
        Some(included) => included,
        None => true,
    };
    let dropped = match excluded {
        Some(excluded) => excluded,
        None => false,
    };
    found && kept && !dropped
}

/// The files that are downloaded, in the order in which they are listed.
pub open spec fn kept_files(
    files: Seq<FileView>,
    wanted: Seq<Seq<char>>,
    includes: Seq<Seq<char>>,
    excludes: Seq<Seq<char>>,
    include_backslash: bool,
    exclude_backslash: bool,
) -> Seq<FileView>
    decreases files.len(),
{
    if files.len() == 0 {
        Seq::empty()
    } else {
        let before = kept_files(
            files.drop_last(),
            wanted,
            includes,
            excludes,
            include_backslash,
            exclude_backslash,
        );
        let path = files.last().path;
        if is_kept(
            wanted,
            path,
            verdict(includes, path, include_backslash),
            verdict(excludes, path, exclude_backslash),
        ) {
            before.push(files.last())
        } else {
            before
        }
    }
}

/// The files that are downloaded, in the order in which they are listed, where the sets say
/// what is included and excluded.
pub open spec fn files_kept_by(
    files: Seq<FileView>,
    wanted: Seq<Seq<char>>,
    include_set: Option<globset::GlobSet>,
    exclude_set: Option<globset::GlobSet>,
) -> Seq<FileView>
    decreases files.len(),
{
    if files.len() == 0 {
        Seq::empty()
    } else {
        let before = files_kept_by(files.drop_last(), wanted, include_set, exclude_set);
        let path = files.last().path;
        if is_kept(wanted, path, set_verdict(include_set, path), set_verdict(exclude_set, path)) {
            before.push(files.last())
        } else {
            before
        }
    }
}

/// The files that are downloaded of those that are listed, from the sets for what is included
/// and excluded.
pub fn keep_files(
    files: &Vec<RemoteFile>,
    wanted: &Vec<String>,
    include_set: &Option<globset::GlobSet>,
    exclude_set: &Option<globset::GlobSet>,
) -> (out: Vec<RemoteFile>)
    ensures
        file_views(out@) == files_kept_by(
            file_views(files@),
            texts(wanted@),
            *include_set,
            *exclude_set,
        ),
{
    let ghost all = file_views(files@);
    let ghost names = texts(wanted@);
    let mut out: Vec<RemoteFile> = Vec::new();
    let mut i: usize = 0;
    assert(file_views(out@) =~= files_kept_by(all.take(0), names, *include_set, *exclude_set));
    while i < files.len()
        invariant
            i <= files.len(),
            all == file_views(files@),
            names == texts(wanted@),
            file_views(out@) == files_kept_by(
                all.take(i as int),
                names,
                *include_set,
                *exclude_set,
            ),
        decreases files.len() - i,
    {
        let file = &files[i];
        let ghost before = file_views(out@);
        assert(all.take(i + 1).drop_last() =~= all.take(i as int));
        assert(all[i as int] == file@);
        let included = verdict_of(include_set, file.path.as_str());
        let excluded = verdict_of(exclude_set, file.path.as_str());
        if keep_file(wanted, file.path.as_str(), included, excluded) {
            out.push(file.clone());
            assert(file_views(out@) =~= before.push(file@));
        }
        i += 1;
    }
    assert(all.take(i as int) =~= all);
    out
}

/// Sets for two lists of patterns keep what the patterns keep.
proof fn lemma_sets_keep(
    files: Seq<FileView>,
    wanted: Seq<Seq<char>>,
    includes: Seq<Seq<char>>,
    excludes: Seq<Seq<char>>,
    include_set: Option<globset::GlobSet>,
    exclude_set: Option<globset::GlobSet>,
)
    requires
        includes.len() > 0 <==> include_set is Some,
        include_set matches Some(set) ==> set_patterns(set) == includes,
        excludes.len() > 0 <==> exclude_set is Some,
        exclude_set matches Some(set) ==> set_patterns(set) == excludes,
    ensures
        files_kept_by(files, wanted, include_set, exclude_set) == kept_files(
            files,
            wanted,
            includes,
            excludes,
            include_set is Some && set_backslash(include_set->0),
            exclude_set is Some && set_backslash(exclude_set->0),
        ),
    decreases files.len(),
{
    if files.len() > 0 {
        lemma_sets_keep(files.drop_last(), wanted, includes, excludes, include_set, exclude_set);
    }
}

/// Whether a list is what is kept of the files, and nothing is wrong with a pattern.
pub open spec fn is_filtered(
    out: Seq<FileView>,
    files: Seq<FileView>,
    args: DownloadArgs,
    include_backslash: bool,
    exclude_backslash: bool,
) -> bool {
    &&& first_problem(texts(args.includes@), include_backslash) is None
    &&& first_problem(texts(args.excludes@), exclude_backslash) is None
    &&& out == kept_files(
        files,
        texts(args.files@),
        texts(args.includes@),
        texts(args.excludes@),
        include_backslash,
        exclude_backslash,
    )
}

/// Whether a list is what is kept of the files, for one of the meanings of `\` in each
/// list of patterns.
pub open spec fn is_filtering(out: Seq<FileView>, files: Seq<FileView>, args: DownloadArgs) -> bool {
    exists|include_backslash: bool, exclude_backslash: bool|
        #[trigger] is_filtered(out, files, args, include_backslash, exclude_backslash)
}

/// Whether a failure can come of a list of patterns, for one of the meanings of `\`.
pub open spec fn fails_with(patterns: Seq<Seq<char>>, failure: Failure) -> bool {
    patterns.len() > 0 && exists|backslash: bool| #[trigger]
        is_set_failure(patterns, backslash, failure)
}

/// Whether nothing is wrong with any pattern, for one of the meanings of `\`.
pub open spec fn has_no_problem(patterns: Seq<Seq<char>>) -> bool {
    exists|backslash: bool| #[trigger] first_problem(patterns, backslash) is None
}

/// Whether a failure can come of the patterns that were given: it is one of the included
/// patterns, or, where nothing is wrong with those, one of the excluded patterns.
pub open spec fn is_filter_failure(args: DownloadArgs, failure: Failure) -> bool {
    ||| fails_with(texts(args.includes@), failure)
    ||| has_no_problem(texts(args.includes@)) && fails_with(texts(args.excludes@), failure)
}

/// The files that are downloaded of those that are listed. It fails if something is wrong with
/// a pattern, with what is wrong with the first such. Otherwise it can fail only of a list that is
/// neither plain nor modest, which can be too large to be compiled.
pub fn filter_files(files: Vec<RemoteFile>, args: &DownloadArgs) -> (r: Result<
    Vec<RemoteFile>,
    MgetError,
>)
    requires
        can_build(texts(args.includes@)),
        can_build(texts(args.excludes@)),
    ensures
        are_accepted(texts(args.includes@)) && are_accepted(texts(args.excludes@)) ==> r is Ok,
        match r {
            Ok(out) => is_filtering(file_views(out@), file_views(files@), *args),
            Err(error) => is_filter_failure(*args, error@),
        },
{
    let include_set = match build_glob_set(&args.includes) {
        Ok(set) => set,
        Err(error) => {
            return Err(error);
        },
    };
    let ghost d = include_set is Some && set_backslash(include_set->0);
    assert(first_problem(texts(args.includes@), d) is None);
    let exclude_set = match build_glob_set(&args.excludes) {
        Ok(set) => set,
        Err(error) => {
            return Err(error);
        },
    };
    let ghost e = exclude_set is Some && set_backslash(exclude_set->0);
    assert(first_problem(texts(args.excludes@), e) is None);
    let out = keep_files(&files, &args.files, &include_set, &exclude_set);
    proof {
        lemma_sets_keep(
            file_views(files@),
            texts(args.files@),
            texts(args.includes@),
            texts(args.excludes@),
            include_set,
            exclude_set,
        );
        assert(is_filtered(file_views(out@), file_views(files@), *args, d, e));
        assert(is_filtering(file_views(out@), file_views(files@), *args));
    }
    Ok(out)
}

/// Whether a failure says what is wrong with the first pattern that something is wrong with, for
/// one of the meanings of `\`.
pub open spec fn tells_problem(patterns: Seq<Seq<char>>, failure: Failure) -> bool {
    failure matches Failure::Glob(text) && exists|backslash: bool| #[trigger]
        first_problem(patterns, backslash) == Some(text)
}

/// Where both lists of patterns are plain or modest, filtering fails only of a pattern that
/// something is wrong with, and says what.
pub proof fn only_bad_patterns_fail(args: DownloadArgs, failure: Failure)
    requires
        compiles(texts(args.includes@)),
        compiles(texts(args.excludes@)),
        is_filter_failure(args, failure),
    ensures
        tells_problem(texts(args.includes@), failure) || tells_problem(
            texts(args.excludes@),
            failure,
        ),
{
    let (includes, excludes) = (texts(args.includes@), texts(args.excludes@));
    if fails_with(includes, failure) {
        let b = choose|b: bool| is_set_failure(includes, b, failure);
        assert(first_problem(includes, b) is Some);
    } else {
        let b = choose|b: bool| is_set_failure(excludes, b, failure);
        assert(first_problem(excludes, b) is Some);
    }
}

/// Files that were kept are kept again: filtering twice changes nothing.
pub proof fn keeping_twice_changes_nothing(
    files: Seq<FileView>,
    wanted: Seq<Seq<char>>,
    includes: Seq<Seq<char>>,
    excludes: Seq<Seq<char>>,
    include_backslash: bool,
    exclude_backslash: bool,
)
    ensures
        ({
            let kept = kept_files(
                files,
                wanted,
                includes,
                excludes,
                include_backslash,
                exclude_backslash,
            );
            kept_files(kept, wanted, includes, excludes, include_backslash, exclude_backslash)
                == kept
        }),
    decreases files.len(),
{
    if files.len() > 0 {
        let (d, e) = (include_backslash, exclude_backslash);
        let rest = files.drop_last();
        keeping_twice_changes_nothing(rest, wanted, includes, excludes, d, e);
        let before = kept_files(rest, wanted, includes, excludes, d, e);
        let kept = kept_files(files, wanted, includes, excludes, d, e);
        if kept != before {
            assert(kept.drop_last() =~= before);
        }
    }
}

/// What is kept of two lists of files is what is kept of the first and then of the second.
pub proof fn keeping_goes_file_by_file(
    a: Seq<FileView>,
    b: Seq<FileView>,
    wanted: Seq<Seq<char>>,
    includes: Seq<Seq<char>>,
    excludes: Seq<Seq<char>>,
    include_backslash: bool,
    exclude_backslash: bool,
)
    ensures
        kept_files(a + b, wanted, includes, excludes, include_backslash, exclude_backslash)
            == kept_files(a, wanted, includes, excludes, include_backslash, exclude_backslash)
            + kept_files(b, wanted, includes, excludes, include_backslash, exclude_backslash),
    decreases b.len(),
{
    let (d, e) = (include_backslash, exclude_backslash);
    let first = kept_files(a, wanted, includes, excludes, d, e);
    if b.len() == 0 {
        assert(a + b =~= a);
        assert(first + kept_files(b, wanted, includes, excludes, d, e) =~= first);
    } else {
        assert((a + b).drop_last() =~= a + b.drop_last());
        keeping_goes_file_by_file(a, b.drop_last(), wanted, includes, excludes, d, e);
        assert(kept_files(a + b, wanted, includes, excludes, d, e) =~= first + kept_files(
            b,
            wanted,
            includes,
            excludes,
            d,
            e,
        ));
    }
}

/// What is downloaded are the listed files that are to be kept, and no others.
pub proof fn kept_files_are_the_wanted_ones(
    files: Seq<FileView>,
    wanted: Seq<Seq<char>>,
    includes: Seq<Seq<char>>,
    excludes: Seq<Seq<char>>,
    include_backslash: bool,
    exclude_backslash: bool,
    file: FileView,
)
    ensures
        kept_files(files, wanted, includes, excludes, include_backslash, exclude_backslash).contains(
            file,
        ) <==> files.contains(file) && is_kept(
            wanted,
            file.path,
            verdict(includes, file.path, include_backslash),
            verdict(excludes, file.path, exclude_backslash),
        ),
    decreases files.len(),
{
    if files.len() > 0 {
        let (d, e) = (include_backslash, exclude_backslash);
        let rest = files.drop_last();
        kept_files_are_the_wanted_ones(rest, wanted, includes, excludes, d, e, file);
        let before = kept_files(rest, wanted, includes, excludes, d, e);
        let all = kept_files(files, wanted, includes, excludes, d, e);
        if rest.contains(file) {
            assert(files[rest.index_of(file)] == file);
        }
        if files.contains(file) && file != files.last() {
            assert(rest[files.index_of(file)] == file);
        }
        if before.contains(file) {
            assert(all[before.index_of(file)] == file);
        }
        if all.contains(file) && file != files.last() {
            assert(before[all.index_of(file)] == file);
        }
        if all.len() > before.len() {
            assert(all[before.len() as int] == files.last());
        }
        assert(files[files.len() - 1] == files.last());
    }
}

/// A file is kept exactly if it is listed, its whole path is one of the exact paths where there
/// are any, one of the included patterns matches it where there are any, and none of the
/// excluded ones does.
pub proof fn kept_files_meet_every_condition(
    files: Seq<FileView>,
    wanted: Seq<Seq<char>>,
    includes: Seq<Seq<char>>,
    excludes: Seq<Seq<char>>,
    include_backslash: bool,
    exclude_backslash: bool,
    file: FileView,
)
    ensures
        kept_files(files, wanted, includes, excludes, include_backslash, exclude_backslash).contains(
            file,
        ) <==> {
            &&& files.contains(file)
            &&& wanted.len() == 0 || exists|i: int|
                0 <= i < wanted.len() && #[trigger] wanted[i] == file.path
            &&& includes.len() == 0 || exists|i: int|
                0 <= i < includes.len() && pattern_matches(
                    #[trigger] includes[i],
                    file.path,
                    include_backslash,
                )
            &&& forall|i: int|
                0 <= i < excludes.len() ==> !pattern_matches(
                    #[trigger] excludes[i],
                    file.path,
                    exclude_backslash,
                )
        },
{
    let (d, e) = (include_backslash, exclude_backslash);
    kept_files_are_the_wanted_ones(files, wanted, includes, excludes, d, e, file);
    if wanted.contains(file.path) {
        assert(wanted[wanted.index_of(file.path)] == file.path);
    }
}

/// One file is kept or left out as it stands; with `keeping_goes_file_by_file` the files that
/// are kept stand in the order in which they are listed, as often as they are listed.
pub proof fn one_file_is_kept_as_it_stands(
    wanted: Seq<Seq<char>>,
    includes: Seq<Seq<char>>,
    excludes: Seq<Seq<char>>,
    include_backslash: bool,
    exclude_backslash: bool,
    file: FileView,
)
    ensures
        ({
            let kept = kept_files(
                seq![file],
                wanted,
                includes,
                excludes,
                include_backslash,
                exclude_backslash,
            );
            kept == seq![file] || kept == Seq::<FileView>::empty()
        }),
{
    let none = Seq::<FileView>::empty();
    let (d, e) = (include_backslash, exclude_backslash);
    assert(seq![file].drop_last() =~= none);
    assert(kept_files(none, wanted, includes, excludes, d, e) =~= none);
    let kept = kept_files(seq![file], wanted, includes, excludes, d, e);
    assert(kept == none || kept == none.push(file));
    assert(none.push(file) =~= seq![file]);
}

/// Files that are kept by sets are kept by the patterns of the sets.
pub proof fn sets_keep_what_their_patterns_keep(
    files: Seq<FileView>,
    wanted: Seq<Seq<char>>,
    include_set: Option<globset::GlobSet>,
    exclude_set: Option<globset::GlobSet>,
    file: FileView,
)
    ensures
        files_kept_by(files, wanted, include_set, exclude_set).contains(file) <==> {
            &&& files.contains(file)
            &&& wanted.len() == 0 || exists|i: int|
                0 <= i < wanted.len() && #[trigger] wanted[i] == file.path
            &&& include_set matches Some(set) ==> exists|i: int|
                0 <= i < set_patterns(set).len() && pattern_matches(
                    #[trigger] set_patterns(set)[i],
                    file.path,
                    set_backslash(set),
                )
            &&& exclude_set matches Some(set) ==> forall|i: int|
                0 <= i < set_patterns(set).len() ==> !pattern_matches(
                    #[trigger] set_patterns(set)[i],
                    file.path,
                    set_backslash(set),
                )
        },
    decreases files.len(),
{
    if wanted.contains(file.path) {
        assert(wanted[wanted.index_of(file.path)] == file.path);
    }
    if files.len() > 0 {
        let rest = files.drop_last();
        sets_keep_what_their_patterns_keep(rest, wanted, include_set, exclude_set, file);
        let before = files_kept_by(rest, wanted, include_set, exclude_set);
        let all = files_kept_by(files, wanted, include_set, exclude_set);
        if rest.contains(file) {
            assert(files[rest.index_of(file)] == file);
        }
        if files.contains(file) && file != files.last() {
            assert(rest[files.index_of(file)] == file);
        }
        if before.contains(file) {
            assert(all[before.index_of(file)] == file);
        }
        if all.contains(file) && file != files.last() {
            assert(before[all.index_of(file)] == file);
        }
        if all.len() > before.len() {
            assert(all[before.len() as int] == files.last());
        }
        assert(files[files.len() - 1] == files.last());
    }
}

/// Nothing is wrong with patterns exactly if they can be read with backslashes as escapes or
/// without.
pub proof fn good_patterns_can_be_read(patterns: Seq<Seq<char>>)
    ensures
        has_no_problem(patterns) <==> first_problem(patterns, true) is None || first_problem(
            patterns,
            false,
        ) is None,
        patterns.len() == 0 ==> has_no_problem(patterns),
{
    if has_no_problem(patterns) {
        let backslash = choose|backslash: bool| #[trigger]
            first_problem(patterns, backslash) is None;
        assert(backslash || !backslash);
    }
    if patterns.len() == 0 {
        assert(first_problem(patterns, true) is None);
    }
}

/// Of a download's files those are left that are named, where any are, that an included pattern
/// matches, where there are any, and that no excluded one does.
pub proof fn filtered_files_are_the_wanted_ones(
    out: Seq<FileView>,
    files: Seq<FileView>,
    args: DownloadArgs,
    include_backslash: bool,
    exclude_backslash: bool,
    file: FileView,
)
    requires
        is_filtered(out, files, args, include_backslash, exclude_backslash),
    ensures
        out.contains(file) <==> {
            &&& files.contains(file)
            &&& args.files@.len() == 0 || exists|i: int|
                0 <= i < args.files@.len() && #[trigger] texts(args.files@)[i] == file.path
            &&& args.includes@.len() == 0 || exists|i: int|
                0 <= i < args.includes@.len() && pattern_matches(
                    #[trigger] texts(args.includes@)[i],
                    file.path,
                    include_backslash,
                )
            &&& forall|i: int|
                0 <= i < args.excludes@.len() ==> !pattern_matches(
                    #[trigger] texts(args.excludes@)[i],
                    file.path,
                    exclude_backslash,
                )
        },
{
    kept_files_meet_every_condition(
        files,
        texts(args.files@),
        texts(args.includes@),
        texts(args.excludes@),
        include_backslash,
        exclude_backslash,
        file,
    );
}

} // verus!
