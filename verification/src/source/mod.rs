//! Repositories, the places that serve them, and their files.

use vstd::prelude::*;

use crate::encoding::{is_header_text, is_header_value};
use crate::error::MgetError;
use crate::source::huggingface::HuggingFaceSource;
use crate::source::modelscope::ModelScopeSource;
use crate::text::{copy_option, text_of};

pub mod huggingface;
pub mod json;
pub mod modelscope;

verus! {

/// What a repository holds.
#[derive(Debug, Clone, Copy, PartialEq, Eq, Hash, Structural)]
pub enum RepoType {
    Model,
    Dataset,
}

impl RepoType {
    /// The name shown to the user.
    pub open spec fn label_text(self) -> Seq<char> {
        match self {
            RepoType::Model => "model"@,
            RepoType::Dataset => "dataset"@,
        }
    }

    /// The directory name of this kind of repository.
    pub open spec fn segment_text(self) -> Seq<char> {
        match self {
            RepoType::Model => "models"@,
            RepoType::Dataset => "datasets"@,
        }
    }

    /// The name shown to the user.
    pub fn label(self) -> (r: &'static str)
        ensures
            r@ == self.label_text(),
    {
        match self {
            RepoType::Model => "model",
            RepoType::Dataset => "dataset",
        }
    }

    /// The directory name of this kind of repository.
    pub fn cache_segment(self) -> (r: &'static str)
        ensures
            r@ == self.segment_text(),
    {
        match self {
            RepoType::Model => "models",
            RepoType::Dataset => "datasets",
        }
    }
}

/// A place that serves repositories.
#[derive(Debug, Clone, Copy, PartialEq, Eq, Hash, Structural)]
pub enum SourceKind {
    HuggingFace,
    HfMirror,
    ModelScope,
}

impl SourceKind {
    /// The name shown to the user.
    pub open spec fn label_text(self) -> Seq<char> {
        match self {
            SourceKind::HuggingFace => "Hugging Face"@,
            SourceKind::HfMirror => "HF Mirror"@,
            SourceKind::ModelScope => "ModelScope"@,
        }
    }

    /// The directory below the cache that holds what comes from here.
    pub open spec fn segment_text(self) -> Seq<char> {
        match self {
            SourceKind::HuggingFace => "huggingface"@,
            SourceKind::HfMirror => "hf-mirror"@,
            SourceKind::ModelScope => "modelscope"@,
        }
    }

    /// The web address of the place.
    pub open spec fn endpoint_text(self) -> Seq<char> {
        match self {
            SourceKind::HuggingFace => "https://huggingface.co"@,
            SourceKind::HfMirror => "https://hf-mirror.com"@,
            SourceKind::ModelScope => "https://modelscope.cn"@,
        }
    }

    /// The name shown to the user.
    pub fn label(self) -> (r: &'static str)
        ensures
            r@ == self.label_text(),
    {
        match self {
            SourceKind::HuggingFace => "Hugging Face",
            SourceKind::HfMirror => "HF Mirror",
            SourceKind::ModelScope => "ModelScope",
        }
    }

    /// The directory below the cache that holds what comes from here.
    pub fn cache_segment(self) -> (r: &'static str)
        ensures
            r@ == self.segment_text(),
    {
        match self {
            SourceKind::HuggingFace => "huggingface",
            SourceKind::HfMirror => "hf-mirror",
            SourceKind::ModelScope => "modelscope",
        }
    }

    /// The web address of the place.
    pub fn endpoint(self) -> (r: &'static str)
        ensures
            r@ == self.endpoint_text(),
    {
        match self {
            SourceKind::HuggingFace => "https://huggingface.co",
            SourceKind::HfMirror => "https://hf-mirror.com",
            SourceKind::ModelScope => "https://modelscope.cn",
        }
    }
}

/// A repository at a revision, under the name that its source knows.
#[derive(Debug)]
pub struct ResolvedModel {
    pub requested_id: String,
    pub source_id: String,
    pub repo_type: RepoType,
    pub revision: String,
}

/// A resolved repository with its texts as character sequences.
pub ghost struct ModelView {
    pub requested_id: Seq<char>,
    pub source_id: Seq<char>,
    pub repo_type: RepoType,
    pub revision: Seq<char>,
}

impl View for ResolvedModel {
    type V = ModelView;

    open spec fn view(&self) -> ModelView {
        ModelView {
            requested_id: self.requested_id@,
            source_id: self.source_id@,
            repo_type: self.repo_type,
            revision: self.revision@,
        }
    }
}

impl Clone for ResolvedModel {
    fn clone(&self) -> (r: Self)
        ensures
            r == *self,
    {
        ResolvedModel {
            requested_id: self.requested_id.clone(),
            source_id: self.source_id.clone(),
            repo_type: self.repo_type,
            revision: self.revision.clone(),
        }
    }
}

/// A file of a repository with what its source says of it.
#[derive(Debug)]
pub struct RemoteFile {
    pub path: String,
    pub size: Option<u64>,
    pub sha256: Option<String>,
    pub md5: Option<String>,
}

/// A remote file with its texts as character sequences.
pub ghost struct FileView {
    pub path: Seq<char>,
    pub size: Option<u64>,
    pub sha256: Option<Seq<char>>,
    pub md5: Option<Seq<char>>,
}

impl View for RemoteFile {
    type V = FileView;

    open spec fn view(&self) -> FileView {
        FileView {
            path: self.path@,
            size: self.size,
            sha256: text_of(self.sha256),
            md5: text_of(self.md5),
        }
    }
}

impl Clone for RemoteFile {
    fn clone(&self) -> (r: Self)
        ensures
            r == *self,
    {
        RemoteFile {
            path: self.path.clone(),
            size: self.size,
            sha256: copy_option(&self.sha256),
            md5: copy_option(&self.md5),
        }
    }
}

/// The views of a list of files.
pub open spec fn file_views(files: Seq<RemoteFile>) -> Seq<FileView> {
    Seq::new(files.len(), |i: int| files[i]@)
}

/// How the program names itself to servers.
pub const USER_AGENT: &'static str = "mget/0.1.0";

/// A name with its value: a request header, or a parameter of a query.
#[derive(Debug)]
pub struct Field {
    pub name: String,
    pub value: String,
}

/// A field with its texts as character sequences.
pub ghost struct FieldView {
    pub name: Seq<char>,
    pub value: Seq<char>,
}

impl View for Field {
    type V = FieldView;

    open spec fn view(&self) -> FieldView {
        FieldView { name: self.name@, value: self.value@ }
    }
}

/// The views of a list of fields.
pub open spec fn field_views(fields: Seq<Field>) -> Seq<FieldView> {
    Seq::new(fields.len(), |i: int| fields[i]@)
}

/// A field with these texts.
pub fn field(name: &str, value: &str) -> (r: Field)
    ensures
        r@ == (FieldView { name: name@, value: value@ }),
{
    Field { name: name.to_owned(), value: value.to_owned() }
}

/// A request for a document: its address, its query and its headers.
#[derive(Debug)]
pub struct DocumentRequest {
    pub url: String,
    pub query: Vec<Field>,
    pub headers: Vec<Field>,
}

/// A request for a document with its texts as character sequences.
pub ghost struct RequestView {
    pub url: Seq<char>,
    pub query: Seq<FieldView>,
    pub headers: Seq<FieldView>,
}

impl View for DocumentRequest {
    type V = RequestView;

    open spec fn view(&self) -> RequestView {
        RequestView {
            url: self.url@,
            query: field_views(self.query@),
            headers: field_views(self.headers@),
        }
    }
}

/// The headers of every request to a source: the user agent, and the token where
/// there is one that a header can hold.
pub open spec fn auth_fields(token: Option<Seq<char>>) -> Seq<FieldView> {
    let agent = FieldView { name: "user-agent"@, value: USER_AGENT@ };
    match token {
        Some(token) if is_header_text(vstd::utf8::encode_utf8("Bearer "@ + token)) => seq![
            agent,
            FieldView { name: "authorization"@, value: "Bearer "@ + token },
        ],
        _ => seq![agent],
    }
}

/// The headers that go with a token.
pub fn headers_for(token: &Option<String>) -> (out: Vec<Field>)
    ensures
        field_views(out@) == auth_fields(text_of(*token)),
{
    let mut out: Vec<Field> = Vec::new();
    out.push(field("user-agent", USER_AGENT));
    assert(field_views(out@) == seq![FieldView { name: "user-agent"@, value: USER_AGENT@ }]);
    if let Some(token) = token {
        let mut value = "Bearer ".to_owned();
        value.append(token.as_str());
        if is_header_value(value.as_str()) {
            out.push(field("authorization", value.as_str()));
            assert(field_views(out@) == auth_fields(Some(token@)));
        }
    }
    out
}

/// A repository that its source knows by the requested id.
pub open spec fn resolved_as(id: Seq<char>, repo_type: RepoType, revision: Seq<char>) -> ModelView {
    ModelView { requested_id: id, source_id: id, repo_type, revision }
}

/// Resolves a repository to itself.
pub fn resolved(id: &str, repo_type: RepoType, revision: &str) -> (r: ResolvedModel)
    ensures
        r@ == resolved_as(id@, repo_type, revision@),
{
    ResolvedModel {
        requested_id: id.to_owned(),
        source_id: id.to_owned(),
        repo_type,
        revision: revision.to_owned(),
    }
}

/// A place to download from.
pub trait ModelSource {
    /// Which place it is.
    spec fn kind(&self) -> SourceKind;

    /// The token that requests carry.
    spec fn token(&self) -> Option<Seq<char>>;

    /// The request whose answer lists the files of a repository.
    spec fn listing(&self, model: ModelView) -> RequestView;

    /// Where the file at `path` of a repository is found.
    spec fn file_url(&self, model: ModelView, path: Seq<char>) -> Seq<char>;

    /// Which place it is.
    fn source_kind(&self) -> (r: SourceKind)
        ensures
            r == self.kind(),
    ;

    /// The headers of every request to it.
    fn auth_headers(&self) -> (r: Vec<Field>)
        ensures
            field_views(r@) == auth_fields(self.token()),
    ;

    /// The repository as this place knows it: under the id that was asked for.
    fn resolve_model(&self, model: &str, repo_type: RepoType, revision: &str) -> (r: Result<
        ResolvedModel,
        MgetError,
    >)
        ensures
            r matches Ok(resolved) && resolved@ == resolved_as(model@, repo_type, revision@),
    ;

    /// The request whose answer lists the files of a repository.
    fn list_request(&self, model: &ResolvedModel) -> (r: DocumentRequest)
        ensures
            r@ == self.listing(model@),
    ;

    /// Where a file of a repository is found.
    fn download_url(&self, model: &ResolvedModel, file: &RemoteFile) -> (r: String)
        ensures
            r@ == self.file_url(model@, file@.path),
    ;
}

/// A source of either protocol.
#[derive(Debug)]
pub enum AnySource {
    HuggingFace(HuggingFaceSource),
    ModelScope(ModelScopeSource),
}

impl AnySource {
    /// The address that every request goes to.
    pub open spec fn base(&self) -> Seq<char> {
        match self {
            AnySource::HuggingFace(source) => source.base(),
            AnySource::ModelScope(source) => source.base(),
        }
    }
}

impl ModelSource for AnySource {
    open spec fn kind(&self) -> SourceKind {
        match self {
            AnySource::HuggingFace(source) => source.kind(),
            AnySource::ModelScope(source) => source.kind(),
        }
    }

    open spec fn token(&self) -> Option<Seq<char>> {
        match self {
            AnySource::HuggingFace(source) => source.token(),
            AnySource::ModelScope(source) => source.token(),
        }
    }

    open spec fn listing(&self, model: ModelView) -> RequestView {
        match self {
            AnySource::HuggingFace(source) => source.listing(model),
            AnySource::ModelScope(source) => source.listing(model),
        }
    }

    open spec fn file_url(&self, model: ModelView, path: Seq<char>) -> Seq<char> {
        match self {
            AnySource::HuggingFace(source) => source.file_url(model, path),
            AnySource::ModelScope(source) => source.file_url(model, path),
        }
    }

    fn source_kind(&self) -> (r: SourceKind) {
        match self {
            AnySource::HuggingFace(source) => source.source_kind(),
            AnySource::ModelScope(source) => source.source_kind(),
        }
    }

    fn auth_headers(&self) -> (r: Vec<Field>) {
        match self {
            AnySource::HuggingFace(source) => source.auth_headers(),
            AnySource::ModelScope(source) => source.auth_headers(),
        }
    }

    fn resolve_model(&self, model: &str, repo_type: RepoType, revision: &str) -> (r: Result<
        ResolvedModel,
        MgetError,
    >) {
        match self {
            AnySource::HuggingFace(source) => source.resolve_model(model, repo_type, revision),
            AnySource::ModelScope(source) => source.resolve_model(model, repo_type, revision),
        }
    }

    fn list_request(&self, model: &ResolvedModel) -> (r: DocumentRequest) {
        match self {
            AnySource::HuggingFace(source) => source.list_request(model),
            AnySource::ModelScope(source) => source.list_request(model),
        }
    }

    fn download_url(&self, model: &ResolvedModel, file: &RemoteFile) -> (r: String) {
        match self {
            AnySource::HuggingFace(source) => source.download_url(model, file),
            AnySource::ModelScope(source) => source.download_url(model, file),
        }
    }
}

/// Every request names the program; it carries a token exactly if there is one that a header
/// can hold, and then that one.
pub proof fn tokens_are_sent_as_they_are(token: Seq<char>)
    ensures
        auth_fields(None).len() == 1,
        auth_fields(None)[0].name == "user-agent"@,
        auth_fields(Some(token))[0] == auth_fields(None)[0],
        is_header_text(vstd::utf8::encode_utf8("Bearer "@ + token)) ==> auth_fields(Some(token)).len()
            == 2 && auth_fields(Some(token))[1] == (FieldView {
            name: "authorization"@,
            value: "Bearer "@ + token,
        }),
        !is_header_text(vstd::utf8::encode_utf8("Bearer "@ + token)) ==> auth_fields(Some(token))
            == auth_fields(None),
{
}

/// A repository is resolved to what was asked for.
pub proof fn repositories_keep_their_names(
    id: Seq<char>,
    repo_type: RepoType,
    revision: Seq<char>,
)
    ensures
        resolved_as(id, repo_type, revision).requested_id == id,
        resolved_as(id, repo_type, revision).source_id == id,
        resolved_as(id, repo_type, revision).repo_type == repo_type,
        resolved_as(id, repo_type, revision).revision == revision,
{
}

/// No two sources share a name, a directory or an address.
pub proof fn sources_are_told_apart(a: SourceKind, b: SourceKind)
    requires
        a != b,
    ensures
        a.label_text() != b.label_text(),
        a.segment_text() != b.segment_text(),
        a.endpoint_text() != b.endpoint_text(),
{
    reveal_strlit("Hugging Face");
    reveal_strlit("HF Mirror");
    reveal_strlit("ModelScope");
    reveal_strlit("huggingface");
    reveal_strlit("hf-mirror");
    reveal_strlit("modelscope");
    reveal_strlit("https://huggingface.co");
    reveal_strlit("https://hf-mirror.com");
    reveal_strlit("https://modelscope.cn");
    assert(a.label_text().len() != b.label_text().len());
    assert(a.segment_text()[1] != b.segment_text()[1] || a.segment_text()[0] != b.segment_text()[0]);
    assert(a.endpoint_text()[8] != b.endpoint_text()[8] || a.endpoint_text()[9]
        != b.endpoint_text()[9]);
}

/// The directory of a kind of repository has its name in the plural, and no two kinds share a
/// name.
pub proof fn kinds_are_told_apart(kind: RepoType)
    ensures
        kind.segment_text() == kind.label_text() + "s"@,
        RepoType::Model.label_text() == "model"@,
        RepoType::Dataset.label_text() == "dataset"@,
        RepoType::Model.segment_text() != RepoType::Dataset.segment_text(),
{
    reveal_strlit("s");
    reveal_strlit("model");
    reveal_strlit("models");
    reveal_strlit("dataset");
    reveal_strlit("datasets");
    assert("model"@ + "s"@ =~= "models"@);
    assert("dataset"@ + "s"@ =~= "datasets"@);
    assert("models"@.len() != "datasets"@.len());
}

} // verus!
