//! What is downloaded to where.

use vstd::prelude::*;

use crate::cache::{ensure_relative_repo_path, is_safe, unsafe_text};
use crate::error::{Failure, MgetError};
use crate::names::{
    extension, extension_of, is_named, last_piece, lemma_name_start, lemma_trimmed, name_start,
    trimmed, with_extension, with_extension_of,
};
use crate::paths::{join_path, joined, steps, Platform};
use crate::reach::goes_on;
use crate::source::{file_views, FileView, ModelSource, ModelView, RemoteFile, ResolvedModel};
use crate::text::{last_index, lemma_last_index, text_of};

verus! {

/// A file to download: where it is found, where it goes, and the two files that the
/// download keeps beside it.
#[derive(Debug)]
pub struct FileTask {
    pub remote: RemoteFile,
    pub url: String,
    pub target: String,
    pub part: String,
    pub state: String,
}

/// A file to download with its texts as character sequences.
pub ghost struct TaskView {
    pub remote: FileView,
    pub url: Seq<char>,
    pub target: Seq<char>,
    pub part: Seq<char>,
    pub state: Seq<char>,
}

impl View for FileTask {
    type V = TaskView;

    open spec fn view(&self) -> TaskView {
        TaskView {
            remote: self.remote@,
            url: self.url@,
            target: self.target@,
            part: self.part@,
            state: self.state@,
        }
    }
}

impl Clone for FileTask {
    fn clone(&self) -> (r: Self)
        ensures
            r == *self,
    {
        FileTask {
            remote: self.remote.clone(),
            url: self.url.clone(),
            target: self.target.clone(),
            part: self.part.clone(),
            state: self.state.clone(),
        }
    }
}

/// The views of a list of files to download.
pub open spec fn task_views(tasks: Seq<FileTask>) -> Seq<TaskView> {
    Seq::new(tasks.len(), |i: int| tasks[i]@)
}

/// An extension with one more behind it.
pub open spec fn extended(existing: Option<Seq<char>>, more: Seq<char>) -> Seq<char> {
    match existing {
        Some(ext) => ext + "."@ + more,
        None => more,
    }
}

/// The path of the partial file of a target.
pub open spec fn part_path(target: Seq<char>, platform: Platform) -> Seq<char> {
    with_extension_of(target, extended(extension_of(target, platform), "mget-part"@), platform)
}

/// The path of the record of the chunks of a target.
pub open spec fn state_path(target: Seq<char>, platform: Platform) -> Seq<char> {
    with_extension_of(
        target,
        extended(extension_of(target, platform), "mget-state.json"@),
        platform,
    )
}

/// An extension with one more behind it.
fn extend(existing: &Option<String>, more: &str) -> (out: String)
    ensures
        out@ == extended(text_of(*existing), more@),
{
    match existing {
        Some(ext) => {
            let mut out = ext.clone();
            out.append(".");
            out.append(more);
            out
        },
        None => more.to_owned(),
    }
}

/// The extension of a partial file.
pub fn part_extension(existing: &Option<String>) -> (out: String)
    ensures
        out@ == extended(text_of(*existing), "mget-part"@),
{
    extend(existing, "mget-part")
}

/// The extension of a record of chunks.
pub fn state_extension(existing: &Option<String>) -> (out: String)
    ensures
        out@ == extended(text_of(*existing), "mget-state.json"@),
{
    extend(existing, "mget-state.json")
}

/// A name with one more extension is the name and the extension.
proof fn lemma_one_more_extension(target: Seq<char>, more: Seq<char>, platform: Platform)
    requires
        is_named(target, platform),
        more.len() > 0,
    ensures
        with_extension_of(target, extended(extension_of(target, platform), more), platform)
            == trimmed(target, platform) + "."@ + more,
{
    reveal_strlit(".");
    let whole = trimmed(target, platform);
    let name = last_piece(target, platform);
    let start = name_start(target, platform);
    lemma_name_start(target, platform);
    lemma_last_index(name, '.');
    assert(name =~= whole.skip(start));
    let dot = last_index(name, '.');
    if dot > 0 {
        let kept = target.take(start + dot);
        let ext = name.skip(dot + 1);
        assert(name =~= name.take(dot) + "."@ + ext);
        assert(whole =~= kept + "."@ + ext);
        assert(kept + "."@ + (ext + "."@ + more) =~= whole + "."@ + more);
    } else {
        assert(target.take(start + name.len()) =~= whole);
    }
}

/// The partial file and the record lie beside the target, under its name with
/// `.mget-part` and `.mget-state.json` behind it.
pub proof fn temporary_files_are_beside(target: Seq<char>, platform: Platform)
    requires
        is_named(target, platform),
    ensures
        part_path(target, platform) == trimmed(target, platform) + "."@ + "mget-part"@,
        state_path(target, platform) == trimmed(target, platform) + "."@ + "mget-state.json"@,
{
    reveal_strlit("mget-part");
    reveal_strlit("mget-state.json");
    lemma_one_more_extension(target, "mget-part"@, platform);
    lemma_one_more_extension(target, "mget-state.json"@, platform);
}

/// The target, the partial file and the record are three files.
pub proof fn temporary_files_are_distinct(target: Seq<char>, platform: Platform)
    requires
        is_named(target, platform),
    ensures
        part_path(target, platform) != target,
        state_path(target, platform) != target,
        part_path(target, platform) != state_path(target, platform),
{
    reveal_strlit(".");
    reveal_strlit("mget-part");
    reveal_strlit("mget-state.json");
    temporary_files_are_beside(target, platform);
    let (part, state) = (part_path(target, platform), state_path(target, platform));
    assert(part.len() != state.len());
    assert(part.last() == 't');
    assert(state.last() == 'n');
    lemma_trimmed(part, platform);
    lemma_trimmed(state, platform);
}

/// Where the files of a repository go, and which they are.
#[derive(Debug)]
pub struct DownloadPlan {
    pub output_root: String,
    pub files: Vec<FileTask>,
}

/// The download of a file of a repository to below `root`.
pub open spec fn task_for<S: ModelSource>(
    source: &S,
    model: ModelView,
    file: FileView,
    root: Seq<char>,
    platform: Platform,
) -> TaskView {
    let target = joined(root, file.path, platform);
    TaskView {
        remote: file,
        url: source.file_url(model, file.path),
        target,
        part: part_path(target, platform),
        state: state_path(target, platform),
    }
}

/// The downloads of the files of a repository, in the order of the files.
pub open spec fn tasks_for<S: ModelSource>(
    source: &S,
    model: ModelView,
    files: Seq<FileView>,
    root: Seq<char>,
    platform: Platform,
) -> Seq<TaskView> {
    Seq::new(files.len(), |i: int| task_for(source, model, files[i], root, platform))
}

/// The first path that may not be written.
pub open spec fn first_unsafe(files: Seq<FileView>, platform: Platform) -> Option<Seq<char>>
    decreases files.len(),
{
    if files.len() == 0 {
        None
    } else if !is_safe(files[0].path, platform) {
        Some(files[0].path)
    } else {
        first_unsafe(files.drop_first(), platform)
    }
}

/// Without a path that may not be written, every path may be.
proof fn lemma_all_safe(files: Seq<FileView>, platform: Platform)
    requires
        first_unsafe(files, platform) is None,
    ensures
        forall|i: int| 0 <= i < files.len() ==> is_safe(
            (#[trigger] files[i]).path,
            platform,
        ),
    decreases files.len(),
{
    if files.len() > 0 {
        lemma_all_safe(files.drop_first(), platform);
        assert forall|i: int| 0 <= i < files.len() implies is_safe(
            (#[trigger] files[i]).path,
            platform,
        ) by {
            if i > 0 {
                assert(files.drop_first()[i - 1] == files[i]);
            }
        }
    }
}

impl DownloadPlan {
    /// Plans the download of the files of a repository to below `output_root`. A path
    /// that may not be written is refused, and then nothing is planned.
    pub fn new<S: ModelSource>(
        source: &S,
        model: &ResolvedModel,
        files: Vec<RemoteFile>,
        output_root: String,
        platform: Platform,
    ) -> (r: Result<Self, MgetError>)
        ensures
            match r {
                Ok(plan) => {
                    &&& first_unsafe(file_views(files@), platform) is None
                    &&& plan.output_root == output_root
                    &&& task_views(plan.files@) == tasks_for(
                        source,
                        model@,
                        file_views(files@),
                        output_root@,
                        platform,
                    )
                },
                Err(error) => first_unsafe(file_views(files@), platform) matches Some(path) && error@
                    == Failure::Message(unsafe_text(path)),
            },
    {
        let ghost all = file_views(files@);
        let ghost wanted = tasks_for(source, model@, all, output_root@, platform);
        let mut tasks: Vec<FileTask> = Vec::new();
        let mut i: usize = 0;
        assert(all.skip(0) =~= all);
        while i < files.len()
            invariant
                i <= files.len(),
                all == file_views(files@),
                wanted == tasks_for(source, model@, all, output_root@, platform),
                task_views(tasks@) == wanted.take(i as int),
                first_unsafe(all.skip(i as int), platform) == first_unsafe(all, platform),
            decreases files.len() - i,
        {
            let file = &files[i];
            let ghost before = task_views(tasks@);
            assert(all.skip(i as int)[0] == file@);
            assert(all.skip(i as int).drop_first() =~= all.skip(i + 1));
            let relative = match ensure_relative_repo_path(file.path.as_str(), platform) {
                Ok(relative) => relative,
                Err(error) => {
                    return Err(error);
                },
            };
            let target = join_path(output_root.as_str(), relative.as_str(), platform);
            let ext = extension(target.as_str(), platform);
            let part = with_extension(target.as_str(), part_extension(&ext).as_str(), platform);
            let state = with_extension(target.as_str(), state_extension(&ext).as_str(), platform);
            let url = source.download_url(model, file);
            let task = FileTask { remote: file.clone(), url, target, part, state };
            assert(task@ == wanted[i as int]);
            tasks.push(task);
            assert(task_views(tasks@) =~= before.push(wanted[i as int]));
            assert(wanted.take(i + 1) =~= wanted.take(i as int).push(wanted[i as int]));
            i += 1;
        }
        assert(wanted.take(i as int) =~= wanted);
        Ok(DownloadPlan { output_root, files: tasks })
    }
}

/// What is planned stays below the output directory: every target is reached by going
/// there and then down only. On Windows that holds of the paths that go on from there.
pub proof fn planned_files_stay_below<S: ModelSource>(
    source: &S,
    model: ModelView,
    files: Seq<FileView>,
    root: Seq<char>,
    i: int,
    platform: Platform,
)
    requires
        first_unsafe(files, platform) is None,
        0 <= i < files.len(),
        platform is Windows ==> goes_on(root, files[i].path, platform),
    ensures
        steps(tasks_for(source, model, files, root, platform)[i].target, platform) == steps(
            root,
            platform,
        ) + steps(files[i].path, platform),
        !steps(files[i].path, platform).contains(".."@),
{
    lemma_all_safe(files, platform);
    crate::cache::safe_paths_stay_below(root, files[i].path, platform);
}

/// The sum of the sizes that are known.
pub open spec fn known_total(tasks: Seq<TaskView>) -> nat
    decreases tasks.len(),
{
    if tasks.len() == 0 {
        0
    } else {
        known_total(tasks.drop_last()) + (match tasks.last().remote.size {
            Some(size) => size as nat,
            None => 0,
        })
    }
}

/// The sum of the first sizes is no larger than that of all.
proof fn lemma_total_grows(tasks: Seq<TaskView>, n: int)
    requires
        0 <= n <= tasks.len(),
    ensures
        known_total(tasks.take(n)) <= known_total(tasks),
    decreases tasks.len(),
{
    if n < tasks.len() {
        assert(tasks.drop_last().take(n) =~= tasks.take(n));
        lemma_total_grows(tasks.drop_last(), n);
    } else {
        assert(tasks.take(n) =~= tasks);
    }
}

/// The sum of the sizes that are known, unless it is too large for a number.
pub fn checked_known_size(files: &[FileTask]) -> (r: Option<u64>)
    ensures
        match r {
            Some(total) => total == known_total(task_views(files@)),
            None => known_total(task_views(files@)) > u64::MAX,
        },
{
    let ghost all = task_views(files@);
    let mut total: u64 = 0;
    let mut i: usize = 0;
    while i < files.len()
        invariant
            i <= files.len(),
            all == task_views(files@),
            total == known_total(all.take(i as int)),
        decreases files.len() - i,
    {
        assert(all.take(i + 1).drop_last() =~= all.take(i as int));
        assert(all[i as int] == files@[i as int]@);
        if let Some(size) = files[i].remote.size {
            proof {
                lemma_total_grows(all, i + 1);
            }
            match total.checked_add(size) {
                Some(sum) => {
                    total = sum;
                },
                None => {
                    return None;
                },
            }
        }
        i += 1;
    }
    assert(all.take(i as int) =~= all);
    Some(total)
}

/// The sum of the sizes that are known.
pub fn total_known_size(files: &[FileTask]) -> (r: u64)
    requires
        known_total(task_views(files@)) <= u64::MAX,
    ensures
        r == known_total(task_views(files@)),
{
    match checked_known_size(files) {
        Some(total) => total,
        None => 0,
    }
}

/// On Unix a target that ends in a name has the two files of its download under that name with
/// `.mget-part` and `.mget-state.json` behind it, whatever extension it has.
pub proof fn temporary_files_follow_the_target(target: Seq<char>)
    requires
        target.len() > 0,
        target[target.len() - 1] != '/',
        target[target.len() - 1] != '\\',
        target[target.len() - 1] != '.',
    ensures
        part_path(target, Platform::Unix) == target + ".mget-part"@,
        state_path(target, Platform::Unix) == target + ".mget-state.json"@,
{
    reveal_strlit(".");
    reveal_strlit("..");
    reveal_strlit("mget-part");
    reveal_strlit(".mget-part");
    reveal_strlit("mget-state.json");
    reveal_strlit(".mget-state.json");
    let platform = Platform::Unix;
    lemma_trimmed(target, platform);
    lemma_name_start(target, platform);
    let core = crate::names::core_text(target, platform);
    let own = crate::paths::own_text(target, platform);
    assert(own =~= target) by {
        assert(crate::paths::slashed(target, platform) =~= target);
    }
    assert(core.len() == target.len());
    let name = last_piece(target, platform);
    lemma_last_index(core, '/');
    assert(core =~= target) by {
        assert(core == own);
    }
    assert(name_start(target, platform) <= target.len() - 1) by {
        if last_index(core, '/') == target.len() - 1 {
            assert(core[target.len() - 1] == '/');
        }
    }
    assert(name.last() == target.last());
    temporary_files_are_beside(target, platform);
    assert(target + "."@ + "mget-part"@ =~= target + ".mget-part"@);
    assert(target + "."@ + "mget-state.json"@ =~= target + ".mget-state.json"@);
}

/// The plan has one task for each file, in order: for that file, from its address, to its place
/// below the root.
pub proof fn tasks_are_for_their_files<S: ModelSource>(
    source: &S,
    model: ModelView,
    files: Seq<FileView>,
    root: Seq<char>,
    platform: Platform,
    i: int,
)
    requires
        0 <= i < files.len(),
    ensures
        ({
            let tasks = tasks_for(source, model, files, root, platform);
            &&& tasks.len() == files.len()
            &&& tasks[i].remote == files[i]
            &&& tasks[i].url == source.file_url(model, files[i].path)
            &&& tasks[i].target == joined(root, files[i].path, platform)
            &&& tasks[i].part == part_path(tasks[i].target, platform)
            &&& tasks[i].state == state_path(tasks[i].target, platform)
        }),
{
}

/// A plan is refused for the first file whose path may not be written, and only for such a
/// file.
pub proof fn first_unsafe_path_is_named(files: Seq<FileView>, platform: Platform)
    ensures
        first_unsafe(files, platform) is None <==> forall|i: int|
            0 <= i < files.len() ==> is_safe((#[trigger] files[i]).path, platform),
        first_unsafe(files, platform) matches Some(path) ==> exists|i: int|
            {
                &&& 0 <= i < files.len()
                &&& (#[trigger] files[i]).path == path
                &&& !is_safe(path, platform)
                &&& forall|j: int| 0 <= j < i ==> is_safe((#[trigger] files[j]).path, platform)
            },
    decreases files.len(),
{
    if first_unsafe(files, platform) is None {
        lemma_all_safe(files, platform);
    }
    if files.len() > 0 {
        let rest = files.drop_first();
        if !is_safe(files[0].path, platform) {
            assert(files[0].path == files[0].path);
        } else {
            first_unsafe_path_is_named(rest, platform);
            if let Some(path) = first_unsafe(files, platform) {
                let i = choose|i: int|
                    {
                        &&& 0 <= i < rest.len()
                        &&& (#[trigger] rest[i]).path == path
                        &&& !is_safe(path, platform)
                        &&& forall|j: int|
                            0 <= j < i ==> is_safe((#[trigger] rest[j]).path, platform)
                    };
                assert(files[i + 1] == rest[i]);
                assert forall|j: int| 0 <= j < i + 1 implies is_safe(
                    (#[trigger] files[j]).path,
                    platform,
                ) by {
                    if j > 0 {
                        assert(rest[j - 1] == files[j]);
                    }
                }
            }
        }
    }
}

/// The known sizes are summed up task by task; an unknown size counts nothing.
pub proof fn known_sizes_are_summed_up(a: Seq<TaskView>, b: Seq<TaskView>, task: TaskView)
    ensures
        known_total(a + b) == known_total(a) + known_total(b),
        task.remote.size matches Some(size) ==> known_total(seq![task]) == size,
        task.remote.size is None ==> known_total(seq![task]) == 0,
    decreases b.len(),
{
    assert(seq![task].drop_last() =~= Seq::<TaskView>::empty());
    assert(known_total(Seq::<TaskView>::empty()) == 0);
    if b.len() == 0 {
        assert(a + b =~= a);
    } else {
        assert((a + b).drop_last() =~= a + b.drop_last());
        known_sizes_are_summed_up(a, b.drop_last(), task);
    }
}

} // verus!
