//! The decisions from the command line to the list of files.

use vstd::prelude::*;

use crate::cli::DownloadArgs;
use crate::config::EffectiveConfig;
use crate::error::{Failure, MgetError};
use crate::source::huggingface::HuggingFaceSource;
use crate::source::modelscope::ModelScopeSource;
use crate::source::{
    file_views, AnySource, FileView, ModelSource, RemoteFile, RepoType, ResolvedModel, SourceKind,
};
use crate::text::{copy_option, text_of};

verus! {

/// The token for a source.
pub open spec fn token_for(kind: SourceKind, config: EffectiveConfig) -> Option<Seq<char>> {
    match kind {
        SourceKind::ModelScope => text_of(config.modelscope_token),
        _ => text_of(config.hf_token),
    }
}

/// The source of a kind, at its own address and with its token.
pub fn build_source(source_kind: SourceKind, config: &EffectiveConfig) -> (r: AnySource)
    ensures
        r.kind() == source_kind,
        r.base() == source_kind.endpoint_text(),
        r.token() == token_for(source_kind, *config),
        r is ModelScope <==> source_kind == SourceKind::ModelScope,
{
    match source_kind {
        SourceKind::ModelScope => AnySource::ModelScope(
            ModelScopeSource::new(copy_option(&config.modelscope_token)),
        ),
        _ => AnySource::HuggingFace(
            HuggingFaceSource::new(source_kind, copy_option(&config.hf_token)),
        ),
    }
}

/// Which repository is looked for at a source.
#[derive(Debug)]
pub enum RepoRequest {
    /// The one with this id.
    Direct(String),
    /// The one that ModelScope has for this id.
    Mapped(String),
}

/// Which repository is looked for, with its id as a character sequence.
pub ghost enum RequestedRepo {
    Direct(Seq<char>),
    Mapped(Seq<char>),
}

impl View for RepoRequest {
    type V = RequestedRepo;

    open spec fn view(&self) -> RequestedRepo {
        match *self {
            RepoRequest::Direct(id) => RequestedRepo::Direct(id@),
            RepoRequest::Mapped(id) => RequestedRepo::Mapped(id@),
        }
    }
}

/// Which repository is looked for where `id` was asked for: a model at ModelScope goes by the id
/// that ModelScope has for it, every other repository by its own.
pub open spec fn repo_request(
    id: Seq<char>,
    repo_type: RepoType,
    source_kind: SourceKind,
) -> RequestedRepo {
    if source_kind == SourceKind::ModelScope && repo_type == RepoType::Model {
        RequestedRepo::Mapped(id)
    } else {
        RequestedRepo::Direct(id)
    }
}

/// Which repository is looked for.
pub fn requested_repo(args: &DownloadArgs, repo_type: RepoType, source_kind: SourceKind) -> (r:
    Result<RepoRequest, MgetError>)
    ensures
        match r {
            Ok(request) => args.requested() matches Some(id) && request@ == repo_request(
                id,
                repo_type,
                source_kind,
            ),
            Err(error) => args.requested() is None && error@ == Failure::Message(
                "repository id is required"@,
            ),
        },
{
    match args.repo_id() {
        Some(id) => if source_kind == SourceKind::ModelScope && repo_type == RepoType::Model {
            Ok(RepoRequest::Mapped(id))
        } else {
            Ok(RepoRequest::Direct(id))
        },
        None => Err(MgetError::Message("repository id is required".to_owned())),
    }
}

/// Refuses a repository of which nothing is downloaded.
pub fn require_files(files: &Vec<RemoteFile>, model: &ResolvedModel) -> (r: Result<(), MgetError>)
    ensures
        match r {
            Ok(_) => files@.len() > 0,
            Err(error) => files@.len() == 0 && error@ == Failure::EmptyRepository(model@.source_id),
        },
{
    if files.len() == 0 {
        Err(MgetError::EmptyRepository(model.source_id.clone()))
    } else {
        Ok(())
    }
}

/// Whether the size of every file is known.
pub open spec fn all_known(files: Seq<FileView>) -> bool {
    forall|i: int| 0 <= i < files.len() ==> (#[trigger] files[i]).size is Some
}

/// Whether the size of every file is known.
pub fn sizes_known(files: &Vec<RemoteFile>) -> (r: bool)
    ensures
        r == all_known(file_views(files@)),
{
    let ghost all = file_views(files@);
    let mut i: usize = 0;
    while i < files.len()
        invariant
            i <= files.len(),
            all == file_views(files@),
            forall|j: int| 0 <= j < i ==> (#[trigger] all[j]).size is Some,
        decreases files.len() - i,
    {
        assert(all[i as int] == files@[i as int]@);
        if files[i].size.is_none() {
            return false;
        }
        i += 1;
    }
    true
}

/// A file with the size that a probe has told, where its size was not known.
pub open spec fn filled(file: FileView, probed: Option<u64>) -> FileView {
    FileView {
        size: if file.size is Some {
            file.size
        } else {
            probed
        },
        ..file
    }
}

/// The files with the sizes that the probes have told, each where its size was not known.
pub open spec fn all_filled(files: Seq<FileView>, probed: Seq<Option<u64>>) -> Seq<FileView> {
    Seq::new(files.len(), |i: int| filled(files[i], probed[i]))
}

/// Fills in the sizes that the probes have told: `probed` has one entry for each file, and
/// `None` where nothing was told.
pub fn fill_missing_sizes(files: Vec<RemoteFile>, probed: &Vec<Option<u64>>) -> (out: Vec<
    RemoteFile,
>)
    requires
        probed@.len() == files@.len(),
    ensures
        file_views(out@) == all_filled(file_views(files@), probed@),
{
    let ghost all = file_views(files@);
    let ghost wanted = all_filled(all, probed@);
    let mut out: Vec<RemoteFile> = Vec::new();
    let mut i: usize = 0;
    while i < files.len()
        invariant
            i <= files.len(),
            probed@.len() == files@.len(),
            all == file_views(files@),
            wanted == all_filled(all, probed@),
            file_views(out@) == wanted.take(i as int),
        decreases files.len() - i,
    {
        let ghost before = file_views(out@);
        assert(all[i as int] == files@[i as int]@);
        let mut file = files[i].clone();
        if file.size.is_none() {
            file.size = probed[i];
        }
        assert(file@ == wanted[i as int]);
        out.push(file);
        assert(file_views(out@) =~= before.push(wanted[i as int]));
        assert(wanted.take(i + 1) =~= wanted.take(i as int).push(wanted[i as int]));
        i += 1;
    }
    assert(wanted.take(i as int) =~= wanted);
    out
}

/// A size that the source tells is never replaced by what a probe tells, and nothing else
/// of a file changes.
pub proof fn told_sizes_stay(files: Seq<FileView>, probed: Seq<Option<u64>>, i: int)
    requires
        0 <= i < files.len(),
    ensures
        files[i].size is Some ==> all_filled(files, probed)[i] == files[i],
        all_filled(files, probed)[i].path == files[i].path,
        all_filled(files, probed)[i].sha256 == files[i].sha256,
        all_filled(files, probed)[i].md5 == files[i].md5,
{
}

/// A size that is not told is the one that the probe of this file has told.
pub proof fn missing_sizes_are_probed(files: Seq<FileView>, probed: Seq<Option<u64>>, i: int)
    requires
        0 <= i < files.len(),
        files[i].size is None,
    ensures
        all_filled(files, probed).len() == files.len(),
        all_filled(files, probed)[i].size == probed[i],
{
}

/// The token for ModelScope goes to ModelScope, and the one for Hugging Face to Hugging Face and
/// its mirror.
pub proof fn tokens_go_where_they_belong(config: EffectiveConfig)
    ensures
        token_for(SourceKind::ModelScope, config) == text_of(config.modelscope_token),
        token_for(SourceKind::HuggingFace, config) == text_of(config.hf_token),
        token_for(SourceKind::HfMirror, config) == text_of(config.hf_token),
{
}

/// Only a model at ModelScope is looked for under another id than its own.
pub proof fn models_are_mapped_for_modelscope(
    id: Seq<char>,
    repo_type: RepoType,
    source_kind: SourceKind,
)
    ensures
        repo_request(id, RepoType::Model, SourceKind::ModelScope) == RequestedRepo::Mapped(id),
        repo_type == RepoType::Dataset || source_kind == SourceKind::HuggingFace || source_kind
            == SourceKind::HfMirror ==> repo_request(id, repo_type, source_kind)
            == RequestedRepo::Direct(id),
{
}

/// All sizes are known exactly if each of them is.
pub proof fn sizes_are_known_one_by_one(a: Seq<FileView>, b: Seq<FileView>, file: FileView)
    ensures
        all_known(a + b) <==> all_known(a) && all_known(b),
        all_known(seq![file]) <==> file.size is Some,
        all_known(Seq::<FileView>::empty()),
{
    let whole = a + b;
    if all_known(whole) {
        assert forall|i: int| 0 <= i < a.len() implies (#[trigger] a[i]).size is Some by {
            assert(whole[i] == a[i]);
        }
        assert forall|i: int| 0 <= i < b.len() implies (#[trigger] b[i]).size is Some by {
            assert(whole[a.len() + i] == b[i]);
        }
    }
    if all_known(seq![file]) {
        assert(seq![file][0].size is Some);
    }
}

} // verus!
