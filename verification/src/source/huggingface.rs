//! Hugging Face and its mirror: their addresses, and the reading of their listings.

use vstd::prelude::*;

use crate::encoding::{url_encode, url_encoded, url_encoding_is_injective};
use crate::error::MgetError;
use crate::source::{
    auth_fields, field_views, file_views, headers_for, resolved, DocumentRequest, Field,
    FieldView, FileView, ModelSource, ModelView, RemoteFile, RepoType, RequestView, ResolvedModel,
    SourceKind,
};
use crate::text::{
    copy_option, cutting_is_at_the_first, ends_with_char, has_last_char, join, join_texts,
    lemma_join_split, lemma_split_join, split, split_text, starts_with, text_of, texts, trim_end,
    without_trailing,
};

verus! {

/// A source that speaks the protocol of Hugging Face.
#[derive(Debug)]
pub struct HuggingFaceSource {
    kind: SourceKind,
    base_url: String,
    token: Option<String>,
}

/// A path with each of its pieces percent-encoded.
pub open spec fn encoded_pieces(pieces: Seq<Seq<char>>) -> Seq<Seq<char>> {
    Seq::new(pieces.len(), |i: int| url_encoded(pieces[i]))
}

/// A path in an address: the pieces between its slashes are percent-encoded, the
/// slashes stay.
pub open spec fn encoded_path(path: Seq<char>) -> Seq<char> {
    join(encoded_pieces(split(path, '/')), "/"@)
}

/// Paths that are encoded alike are alike.
pub proof fn path_encoding_is_injective(a: Seq<char>, b: Seq<char>)
    requires
        encoded_path(a) == encoded_path(b),
    ensures
        a == b,
{
    reveal_strlit("/");
    assert("/"@ =~= seq!['/']);
    lemma_join_split(a, '/');
    lemma_join_split(b, '/');
    let (p, q) = (split(a, '/'), split(b, '/'));
    let (s, t) = (encoded_pieces(p), encoded_pieces(q));
    assert forall|k: int| 0 <= k < s.len() implies !(#[trigger] s[k]).contains('/') by {
        url_encoding_is_injective(p[k], p[k]);
    }
    assert forall|k: int| 0 <= k < t.len() implies !(#[trigger] t[k]).contains('/') by {
        url_encoding_is_injective(q[k], q[k]);
    }
    lemma_split_join(s, '/');
    lemma_split_join(t, '/');
    assert(s.len() == p.len() && t.len() == q.len());
    assert forall|k: int| 0 <= k < p.len() implies p[k] == q[k] by {
        url_encoding_is_injective(p[k], q[k]);
        assert(s[k] == t[k]);
    }
    assert(p =~= q);
}

/// Encodes the pieces of a path for an address.
fn encode_path(path: &str) -> (out: String)
    ensures
        out@ == encoded_path(path@),
{
    let pieces = split_text(path, '/');
    let mut encoded: Vec<String> = Vec::new();
    let mut i: usize = 0;
    while i < pieces.len()
        invariant
            i <= pieces.len(),
            texts(pieces@) == split(path@, '/'),
            texts(encoded@) == encoded_pieces(split(path@, '/')).take(i as int),
        decreases pieces.len() - i,
    {
        let ghost all = encoded_pieces(split(path@, '/'));
        let ghost before = texts(encoded@);
        let piece = url_encode(pieces[i].as_str());
        assert(texts(pieces@)[i as int] == pieces@[i as int]@);
        assert(piece@ == all[i as int]);
        encoded.push(piece);
        assert(texts(encoded@) == before.push(all[i as int]));
        assert(all.take(i + 1) == all.take(i as int).push(all[i as int]));
        i += 1;
    }
    assert(texts(encoded@) == encoded_pieces(split(path@, '/')));
    join_texts(&encoded, "/")
}

impl HuggingFaceSource {
    /// The address that every request goes to, without a slash at its end.
    pub closed spec fn base(&self) -> Seq<char> {
        self.base_url@
    }

    /// A source at the address of its kind.
    pub fn new(kind: SourceKind, token: Option<String>) -> (r: Self)
        requires
            kind != SourceKind::ModelScope,
        ensures
            r.kind() == kind,
            r.base() == kind.endpoint_text(),
            r.token() == text_of(token),
    {
        let r = Self::with_base_url(kind, kind.endpoint(), token);
        proof {
            reveal_strlit("https://huggingface.co");
            reveal_strlit("https://hf-mirror.com");
        }
        r
    }

    /// A source at another address.
    pub fn with_base_url(kind: SourceKind, base_url: &str, token: Option<String>) -> (r: Self)
        ensures
            r.kind() == kind,
            r.base() == trim_end(base_url@, '/'),
            r.token() == text_of(token),
    {
        HuggingFaceSource { kind, base_url: without_trailing(base_url, '/'), token }
    }

    /// The address of the description of a repository.
    pub open spec fn api_url(&self, model: Seq<char>, revision: Seq<char>) -> Seq<char> {
        self.base() + "/api/models/"@ + model + "/revision/"@ + url_encoded(revision)
    }

    /// The address of the description of a repository.
    pub fn model_api_url(&self, model: &str, revision: &str) -> (out: String)
        ensures
            out@ == self.api_url(model@, revision@),
    {
        let mut out = self.base_url.clone();
        out.append("/api/models/");
        out.append(model);
        out.append("/revision/");
        let encoded = url_encode(revision);
        out.append(encoded.as_str());
        out
    }
}

impl ModelSource for HuggingFaceSource {
    closed spec fn kind(&self) -> SourceKind {
        self.kind
    }

    closed spec fn token(&self) -> Option<Seq<char>> {
        text_of(self.token)
    }

    open spec fn listing(&self, model: ModelView) -> RequestView {
        RequestView {
            url: self.api_url(model.source_id, model.revision),
            query: Seq::empty(),
            headers: auth_fields(self.token()),
        }
    }

    open spec fn file_url(&self, model: ModelView, path: Seq<char>) -> Seq<char> {
        self.base() + "/"@ + model.source_id + "/resolve/"@ + url_encoded(model.revision) + "/"@
            + encoded_path(path)
    }

    fn source_kind(&self) -> (r: SourceKind) {
        self.kind
    }

    fn auth_headers(&self) -> (r: Vec<Field>) {
        headers_for(&self.token)
    }

    fn resolve_model(&self, model: &str, repo_type: RepoType, revision: &str) -> (r: Result<
        ResolvedModel,
        MgetError,
    >) {
        Ok(resolved(model, repo_type, revision))
    }

    fn list_request(&self, model: &ResolvedModel) -> (r: DocumentRequest) {
        let url = self.model_api_url(model.source_id.as_str(), model.revision.as_str());
        let query: Vec<Field> = Vec::new();
        let headers = self.auth_headers();
        assert(field_views(query@) == Seq::<FieldView>::empty());
        DocumentRequest { url, query, headers }
    }

    fn download_url(&self, model: &ResolvedModel, file: &RemoteFile) -> (r: String) {
        let mut out = self.base_url.clone();
        out.append("/");
        out.append(model.source_id.as_str());
        out.append("/resolve/");
        let revision = url_encode(model.revision.as_str());
        out.append(revision.as_str());
        out.append("/");
        let path = encode_path(file.path.as_str());
        out.append(path.as_str());
        out
    }
}

/// Different files of a repository have different addresses.
pub proof fn addresses_differ(
    source: &HuggingFaceSource,
    model: ModelView,
    a: Seq<char>,
    b: Seq<char>,
)
    requires
        a != b,
    ensures
        source.file_url(model, a) != source.file_url(model, b),
{
    let start = source.base() + "/"@ + model.source_id + "/resolve/"@ + url_encoded(model.revision)
        + "/"@;
    let (p, q) = (start + encoded_path(a), start + encoded_path(b));
    if p == q {
        assert(p.skip(start.len() as int) =~= encoded_path(a));
        assert(q.skip(start.len() as int) =~= encoded_path(b));
        path_encoding_is_injective(a, b);
    }
}

/// What the description of a repository says of the large-file storage of a file.
#[derive(Debug)]
pub struct HfLfs {
    pub sha256: Option<String>,
}

/// A file in the description of a repository.
#[derive(Debug)]
pub struct HfSibling {
    pub rfilename: String,
    pub size: Option<u64>,
    pub sha256: Option<String>,
    pub lfs: Option<HfLfs>,
}

impl HfSibling {
    /// The checksum of the file: that of its large-file storage, else its own.
    pub open spec fn checksum(self) -> Option<Seq<char>> {
        match self.lfs {
            Some(lfs) if lfs.sha256 is Some => text_of(lfs.sha256),
            _ => text_of(self.sha256),
        }
    }

    /// The file that is described.
    pub open spec fn file(self) -> FileView {
        FileView { path: self.rfilename@, size: self.size, sha256: self.checksum(), md5: None }
    }
}

/// The files among the entries of a description: all but the directories, whose names
/// end in a slash, in the order of the description.
pub open spec fn sibling_files(siblings: Seq<HfSibling>) -> Seq<FileView>
    decreases siblings.len(),
{
    if siblings.len() == 0 {
        Seq::empty()
    } else {
        let before = sibling_files(siblings.drop_last());
        if ends_with_char(siblings.last().rfilename@, '/') {
            before
        } else {
            before.push(siblings.last().file())
        }
    }
}

/// The files in the description of a repository.
pub fn files_of_siblings(siblings: &Vec<HfSibling>) -> (out: Vec<RemoteFile>)
    ensures
        file_views(out@) == sibling_files(siblings@),
{
    let mut out: Vec<RemoteFile> = Vec::new();
    let mut i: usize = 0;
    assert(file_views(out@) == sibling_files(siblings@.take(0)));
    while i < siblings.len()
        invariant
            i <= siblings.len(),
            file_views(out@) == sibling_files(siblings@.take(i as int)),
        decreases siblings.len() - i,
    {
        let sibling = &siblings[i];
        let ghost before = file_views(out@);
        assert(siblings@.take(i + 1).drop_last() == siblings@.take(i as int));
        if !has_last_char(sibling.rfilename.as_str(), '/') {
            let stored = match &sibling.lfs {
                Some(lfs) => copy_option(&lfs.sha256),
                None => None,
            };
            let sha256 = match stored {
                Some(sum) => Some(sum),
                None => copy_option(&sibling.sha256),
            };
            let file = RemoteFile {
                path: sibling.rfilename.clone(),
                size: sibling.size,
                sha256,
                md5: None,
            };
            assert(file@ == sibling.file());
            out.push(file);
            assert(file_views(out@) == before.push(sibling.file()));
        }
        i += 1;
    }
    assert(siblings@.take(i as int) == siblings@);
    out
}

/// The slashes of a path stay and its pieces are encoded one by one.
pub proof fn pieces_are_encoded_one_by_one(path: Seq<char>)
    ensures
        split(encoded_path(path), '/').len() == split(path, '/').len(),
        forall|k: int|
            0 <= k < split(path, '/').len() ==> #[trigger] split(encoded_path(path), '/')[k]
                == url_encoded(split(path, '/')[k]),
{
    reveal_strlit("/");
    assert("/"@ =~= seq!['/']);
    lemma_join_split(path, '/');
    let pieces = split(path, '/');
    let encoded = encoded_pieces(pieces);
    assert forall|k: int| 0 <= k < encoded.len() implies !(#[trigger] encoded[k]).contains('/') by {
        url_encoding_is_injective(pieces[k], pieces[k]);
    }
    lemma_split_join(encoded, '/');
}

/// The address of a file holds its revision and its path so that both can be read from it:
/// files that differ in either have different addresses.
pub proof fn addresses_tell_revisions_and_paths(
    source: &HuggingFaceSource,
    a: ModelView,
    b: ModelView,
    p: Seq<char>,
    q: Seq<char>,
)
    requires
        a.source_id == b.source_id,
        source.file_url(a, p) == source.file_url(b, q),
    ensures
        a.revision == b.revision,
        p == q,
{
    reveal_strlit("/");
    let start = source.base() + "/"@ + a.source_id + "/resolve/"@;
    let (r, s) = (url_encoded(a.revision), url_encoded(b.revision));
    let (x, y) = (encoded_path(p), encoded_path(q));
    let (left, right) = (r.push('/') + x, s.push('/') + y);
    assert(source.file_url(a, p) =~= start + left);
    assert(source.file_url(b, q) =~= start + right);
    assert(left =~= source.file_url(a, p).skip(start.len() as int));
    assert(right =~= source.file_url(b, q).skip(start.len() as int));
    url_encoding_is_injective(a.revision, b.revision);
    url_encoding_is_injective(b.revision, a.revision);
    cutting_is_at_the_first(left, '/', r, x);
    cutting_is_at_the_first(right, '/', s, y);
    path_encoding_is_injective(p, q);
}

/// Descriptions are asked for by repository and revision, with the headers that every request
/// carries: different revisions have different addresses.
pub proof fn descriptions_are_of_revisions(source: &HuggingFaceSource, a: ModelView, b: ModelView)
    ensures
        starts_with(source.listing(a).url, source.base()),
        source.listing(a).query.len() == 0,
        source.listing(a).headers == auth_fields(source.token()),
        a.source_id == b.source_id && source.listing(a).url == source.listing(b).url ==> a.revision
            == b.revision,
        starts_with(source.file_url(a, b.revision), source.base()),
{
    let n = source.base().len() as int;
    assert(source.listing(a).url.take(n) =~= source.base());
    assert(source.file_url(a, b.revision).take(n) =~= source.base());
    if a.source_id == b.source_id && source.listing(a).url == source.listing(b).url {
        let start = source.base() + "/api/models/"@ + a.source_id + "/revision/"@;
        assert(source.listing(a).url.skip(start.len() as int) =~= url_encoded(a.revision));
        assert(source.listing(b).url.skip(start.len() as int) =~= url_encoded(b.revision));
        url_encoding_is_injective(a.revision, b.revision);
    }
}

/// A described file keeps its name and its size and has the checksum of its large-file storage,
/// or its own where that tells none.
pub proof fn descriptions_are_kept(sibling: HfSibling)
    ensures
        sibling.file().path == sibling.rfilename@,
        sibling.file().size == sibling.size,
        sibling.file().md5 is None,
        sibling.lfs matches Some(lfs) ==> (lfs.sha256 matches Some(sum) ==> sibling.file().sha256
            == Some(sum@)),
        sibling.lfs is None || (sibling.lfs->0).sha256 is None ==> (match sibling.sha256 {
            Some(sum) => sibling.file().sha256 == Some(sum@),
            None => sibling.file().sha256 is None,
        }),
{
}

/// The entries of a description are listed one by one, in their order: each is a file unless
/// its name ends in a slash.
pub proof fn entries_are_listed_one_by_one(
    a: Seq<HfSibling>,
    b: Seq<HfSibling>,
    sibling: HfSibling,
)
    ensures
        sibling_files(a + b) == sibling_files(a) + sibling_files(b),
        sibling.rfilename@.len() > 0 && sibling.rfilename@[sibling.rfilename@.len() - 1] == '/'
            ==> sibling_files(seq![sibling]) == Seq::<FileView>::empty(),
        sibling.rfilename@.len() == 0 || sibling.rfilename@[sibling.rfilename@.len() - 1] != '/'
            ==> sibling_files(seq![sibling]) == seq![sibling.file()],
    decreases b.len(),
{
    let none = Seq::<HfSibling>::empty();
    assert(seq![sibling].drop_last() =~= none);
    assert(sibling_files(none) =~= Seq::<FileView>::empty());
    assert(sibling_files(none).push(sibling.file()) =~= seq![sibling.file()]);
    if b.len() == 0 {
        assert(a + b =~= a);
        assert(sibling_files(a) + sibling_files(b) =~= sibling_files(a));
    } else {
        assert((a + b).drop_last() =~= a + b.drop_last());
        entries_are_listed_one_by_one(a, b.drop_last(), sibling);
        assert(sibling_files(a + b) =~= sibling_files(a) + sibling_files(b));
    }
}

} // verus!
