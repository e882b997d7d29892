//! What the command line asks for.

use vstd::prelude::*;

use crate::source::RepoType;
use crate::text::{copy_option, text_of};

verus! {

/// The parsed command line.
#[derive(Debug)]
pub struct Cli {
    pub command: Commands,
}

/// The commands of the program.
#[derive(Debug)]
pub enum Commands {
    /// Diagnose the latency of the sources and recommend one.
    Ping,
    /// Download a repository, or selected files of it.
    Download(Box<DownloadArgs>),
}

/// What `download` was asked to do.
#[derive(Debug)]
pub struct DownloadArgs {
    /// Repository id given by position.
    pub repo: Option<String>,
    /// Model repository id given by name.
    pub model_id: Option<String>,
    /// Dataset repository id given by name.
    pub dataset_id: Option<String>,
    /// What the repository given by position holds.
    pub repo_type: RepoTypeChoice,
    /// Where to download from.
    pub source: SourceChoice,
    /// Output directory.
    pub output: Option<String>,
    /// Number of concurrent downloads.
    pub threads: Option<usize>,
    /// Revision, branch or commit.
    pub revision: String,
    /// Exact paths to download.
    pub files: Vec<String>,
    /// Glob patterns of paths to download.
    pub includes: Vec<String>,
    /// Glob patterns of paths to leave out.
    pub excludes: Vec<String>,
    /// Compatibility links to create.
    pub link: Option<LinkChoice>,
    /// Whether the user may be asked to choose a ModelScope repository.
    pub interactive: bool,
    /// Hugging Face token.
    pub hf_token: Option<String>,
    /// ModelScope token.
    pub modelscope_token: Option<String>,
    /// ModelScope repository id to use for a model.
    pub modelscope_id: Option<String>,
}

/// The first text, or the second one where there is no first.
pub open spec fn first_given(a: Option<Seq<char>>, b: Option<Seq<char>>) -> Option<Seq<char>> {
    if a is Some {
        a
    } else {
        b
    }
}

/// A copy of the first text, or of the second one where there is no first.
pub fn first_given_of(a: &Option<String>, b: &Option<String>) -> (r: Option<String>)
    ensures
        text_of(r) == first_given(text_of(*a), text_of(*b)),
{
    match a {
        Some(text) => Some(text.clone()),
        None => copy_option(b),
    }
}

impl DownloadArgs {
    /// The repository that was asked for: a model by name, a dataset by name, or one
    /// by position.
    pub open spec fn requested(&self) -> Option<Seq<char>> {
        first_given(
            text_of(self.model_id),
            first_given(text_of(self.dataset_id), text_of(self.repo)),
        )
    }

    /// What the repository holds: what its option says, else what was chosen for the
    /// one given by position.
    pub open spec fn requested_type(&self) -> RepoType {
        if self.dataset_id is Some {
            RepoType::Dataset
        } else if self.model_id is Some {
            RepoType::Model
        } else {
            self.repo_type.chosen()
        }
    }

    /// The repository that was asked for.
    pub fn repo_id(&self) -> (r: Option<String>)
        ensures
            text_of(r) == self.requested(),
    {
        let other = first_given_of(&self.dataset_id, &self.repo);
        first_given_of(&self.model_id, &other)
    }

    /// What the repository holds.
    pub fn repo_type(&self) -> (r: RepoType)
        ensures
            r == self.requested_type(),
    {
        if self.dataset_id.is_some() {
            RepoType::Dataset
        } else if self.model_id.is_some() {
            RepoType::Model
        } else {
            RepoType::from(self.repo_type)
        }
    }
}

/// Where to download from.
#[derive(Debug, Clone, Copy, PartialEq, Eq, Structural)]
pub enum SourceChoice {
    Auto,
    Hf,
    HfMirror,
    Modelscope,
}

/// What the repository given by position holds.
#[derive(Debug, Clone, Copy, PartialEq, Eq, Structural)]
pub enum RepoTypeChoice {
    Model,
    Dataset,
}

impl RepoTypeChoice {
    /// The type of repository that the choice stands for.
    pub open spec fn chosen(self) -> RepoType {
        match self {
            RepoTypeChoice::Model => RepoType::Model,
            RepoTypeChoice::Dataset => RepoType::Dataset,
        }
    }
}

impl From<RepoTypeChoice> for RepoType {
    fn from(value: RepoTypeChoice) -> (r: Self) {
        match value {
            RepoTypeChoice::Model => RepoType::Model,
            RepoTypeChoice::Dataset => RepoType::Dataset,
        }
    }
}

impl vstd::std_specs::convert::FromSpecImpl<RepoTypeChoice> for RepoType {
    open spec fn obeys_from_spec() -> bool {
        true
    }

    open spec fn from_spec(value: RepoTypeChoice) -> RepoType {
        value.chosen()
    }
}

/// Which compatibility links to create.
#[derive(Debug, Clone, Copy, PartialEq, Eq, Structural)]
pub enum LinkChoice {
    Hf,
    Modelscope,
    All,
}

/// The first of two texts counts where it is given, and else the second.
pub proof fn first_given_counts(a: Seq<char>, b: Option<Seq<char>>)
    ensures
        first_given(Some(a), b) == Some(a),
        first_given(None, b) == b,
{
}

/// A repository that is named as a model or as a dataset is looked for as that, and one given by
/// position as what was chosen for it.
pub proof fn repositories_are_what_they_are_named(args: DownloadArgs)
    ensures
        args.model_id matches Some(id) ==> args.requested() == Some(id@),
        args.model_id is None ==> (args.dataset_id matches Some(id) ==> args.requested() == Some(
            id@,
        )),
        args.model_id is None && args.dataset_id is None ==> args.requested() == text_of(args.repo),
        args.dataset_id is Some ==> args.requested_type() == RepoType::Dataset,
        args.dataset_id is None && args.model_id is Some ==> args.requested_type()
            == RepoType::Model,
        args.dataset_id is None && args.model_id is None ==> (args.requested_type()
            == RepoType::Dataset <==> args.repo_type == RepoTypeChoice::Dataset),
{
}

} // verus!
