//! ModelScope: its addresses, and the reading of its listings.

use vstd::prelude::*;

use crate::cli::first_given;
use crate::encoding::{
    encoded_texts_hold_no_separator, url_encode, url_encoded, url_encoding_is_injective,
};
use crate::error::MgetError;
use crate::source::json::{
    find_first_number, find_first_text, find_text, first_number_at, first_text_at, names, number_at,
    text_at, JsonEntry, JsonValue,
};
use crate::source::{
    auth_fields, field, field_views, file_views, headers_for, resolved, DocumentRequest, Field,
    FieldView, FileView, ModelSource, ModelView, RemoteFile, RepoType, RequestView, ResolvedModel,
    SourceKind,
};
use crate::text::{
    comes_before, contains_char, cutting_is_at_the_first, ends_with_char, eq_ignore_case,
    has_last_char, same_ignoring_case, same_text, starts_with, text_less, text_of, texts, trim_end,
    without_trailing,
};

verus! {

/// A source that speaks the protocol of ModelScope.
#[derive(Debug)]
pub struct ModelScopeSource {
    base_url: String,
    token: Option<String>,
}

/// A query of two parameters.
pub open spec fn two_fields(a: FieldView, b: FieldView) -> Seq<FieldView> {
    seq![a, b]
}

/// A query of two parameters.
fn two(a: Field, b: Field) -> (out: Vec<Field>)
    ensures
        field_views(out@) == two_fields(a@, b@),
{
    let mut out: Vec<Field> = Vec::new();
    out.push(a);
    out.push(b);
    out
}

impl ModelScopeSource {
    /// The address that every request goes to, without a slash at its end.
    pub closed spec fn base(&self) -> Seq<char> {
        self.base_url@
    }

    /// The source at the address of ModelScope.
    pub fn new(token: Option<String>) -> (r: Self)
        ensures
            r.base() == SourceKind::ModelScope.endpoint_text(),
            r.token() == text_of(token),
    {
        proof {
            reveal_strlit("https://modelscope.cn");
        }
        Self::with_base_url(SourceKind::ModelScope.endpoint(), token)
    }

    /// A source at another address.
    pub fn with_base_url(base_url: &str, token: Option<String>) -> (r: Self)
        ensures
            r.base() == trim_end(base_url@, '/'),
            r.token() == text_of(token),
    {
        ModelScopeSource { base_url: without_trailing(base_url, '/'), token }
    }

    /// The request whose answer names the repositories that match `query`.
    pub open spec fn search(&self, query: Seq<char>) -> RequestView {
        RequestView {
            url: self.base() + "/api/v1/models"@,
            query: two_fields(
                FieldView { name: "Name"@, value: query },
                FieldView { name: "PageSize"@, value: "5"@ },
            ),
            headers: auth_fields(self.token()),
        }
    }

    /// The request whose answer names the repositories that match `query`.
    pub fn search_request(&self, query: &str) -> (r: DocumentRequest)
        ensures
            r@ == self.search(query@),
    {
        let mut url = self.base_url.clone();
        url.append("/api/v1/models");
        DocumentRequest {
            url,
            query: two(field("Name", query), field("PageSize", "5")),
            headers: self.auth_headers(),
        }
    }

    /// The address of the listing of a repository.
    pub open spec fn files_url(&self, id: Seq<char>) -> Seq<char> {
        self.base() + "/api/v1/models/"@ + id + "/repo/files"@
    }

    /// The address of the listing of a repository.
    pub fn repo_files_url(&self, model: &ResolvedModel) -> (out: String)
        ensures
            out@ == self.files_url(model@.source_id),
    {
        let mut out = self.base_url.clone();
        out.append("/api/v1/models/");
        out.append(model.source_id.as_str());
        out.append("/repo/files");
        out
    }
}

impl ModelSource for ModelScopeSource {
    open spec fn kind(&self) -> SourceKind {
        SourceKind::ModelScope
    }

    closed spec fn token(&self) -> Option<Seq<char>> {
        text_of(self.token)
    }

    open spec fn listing(&self, model: ModelView) -> RequestView {
        RequestView {
            url: self.files_url(model.source_id),
            query: two_fields(
                FieldView { name: "Revision"@, value: model.revision },
                FieldView { name: "Recursive"@, value: "true"@ },
            ),
            headers: auth_fields(self.token()),
        }
    }

    open spec fn file_url(&self, model: ModelView, path: Seq<char>) -> Seq<char> {
        self.base() + "/api/v1/models/"@ + model.source_id + "/repo?Revision="@ + url_encoded(
            model.revision,
        ) + "&FilePath="@ + url_encoded(path)
    }

    fn source_kind(&self) -> (r: SourceKind) {
        SourceKind::ModelScope
    }

    fn auth_headers(&self) -> (r: Vec<Field>) {
        headers_for(&self.token)
    }

    fn resolve_model(&self, model: &str, repo_type: RepoType, revision: &str) -> (r: Result<
        ResolvedModel,
        MgetError,
    >) {
        Ok(resolved(model, repo_type, revision))
    }

    fn list_request(&self, model: &ResolvedModel) -> (r: DocumentRequest) {
        DocumentRequest {
            url: self.repo_files_url(model),
            query: two(field("Revision", model.revision.as_str()), field("Recursive", "true")),
            headers: self.auth_headers(),
        }
    }

    fn download_url(&self, model: &ResolvedModel, file: &RemoteFile) -> (r: String) {
        let mut out = self.base_url.clone();
        out.append("/api/v1/models/");
        out.append(model.source_id.as_str());
        out.append("/repo?Revision=");
        let revision = url_encode(model.revision.as_str());
        out.append(revision.as_str());
        out.append("&FilePath=");
        let path = url_encode(file.path.as_str());
        out.append(path.as_str());
        out
    }
}

/// Different files of a repository have different addresses.
pub proof fn addresses_differ(
    source: &ModelScopeSource,
    model: ModelView,
    a: Seq<char>,
    b: Seq<char>,
)
    requires
        a != b,
    ensures
        source.file_url(model, a) != source.file_url(model, b),
{
    let start = source.base() + "/api/v1/models/"@ + model.source_id + "/repo?Revision="@
        + url_encoded(model.revision) + "&FilePath="@;
    let (p, q) = (start + url_encoded(a), start + url_encoded(b));
    if p == q {
        assert(p.skip(start.len() as int) =~= url_encoded(a));
        assert(q.skip(start.len() as int) =~= url_encoded(b));
        url_encoding_is_injective(a, b);
    }
}

/// The members of an object that can name a repository, in the order of reading.
pub open spec fn id_keys() -> Seq<Seq<char>> {
    seq!["ModelId"@, "modelId"@, "Path"@, "path"@, "Name"@, "name"@]
}

/// The repository ids among the members with these keys: their texts with a `/`.
pub open spec fn ids_under(entries: Seq<JsonEntry>, keys: Seq<Seq<char>>) -> Seq<Seq<char>>
    decreases keys.len(),
{
    if keys.len() == 0 {
        Seq::empty()
    } else {
        let before = ids_under(entries, keys.drop_last());
        match text_at(entries, keys.last()) {
            Some(id) if id.contains('/') => before.push(id),
            _ => before,
        }
    }
}

/// The repository ids in a document: those of each object, then those of what is in it.
pub open spec fn ids_in(value: JsonValue) -> Seq<Seq<char>>
    decreases value,
{
    match value {
        JsonValue::Object(entries) => ids_under(entries@, id_keys()) + ids_in_entries(entries@),
        JsonValue::Array(items) => ids_in_items(items@),
        _ => Seq::empty(),
    }
}

/// The repository ids in the values of an object's members.
pub open spec fn ids_in_entries(entries: Seq<JsonEntry>) -> Seq<Seq<char>>
    decreases entries,
{
    if entries.len() == 0 {
        Seq::empty()
    } else {
        ids_in_entries(entries.drop_last()) + ids_in(entries[entries.len() - 1].value)
    }
}

/// The repository ids in the items of an array.
pub open spec fn ids_in_items(items: Seq<JsonValue>) -> Seq<Seq<char>>
    decreases items,
{
    if items.len() == 0 {
        Seq::empty()
    } else {
        ids_in_items(items.drop_last()) + ids_in(items[items.len() - 1])
    }
}

/// The value of a member is smaller than its object.
proof fn lemma_member_decreases(value: JsonValue, entries: Vec<JsonEntry>, i: int)
    requires
        value == JsonValue::Object(entries),
        0 <= i < entries@.len(),
    ensures
        decreases_to!(value => entries@[i].value),
{
    assert(decreases_to!(value => value->Object_0));
    assert(decreases_to!(entries => entries@));
    assert(decreases_to!(entries@ => entries@[i]));
    assert(decreases_to!(entries@[i] => entries@[i].value));
}

/// An item is smaller than its array.
proof fn lemma_item_decreases(value: JsonValue, items: Vec<JsonValue>, i: int)
    requires
        value == JsonValue::Array(items),
        0 <= i < items@.len(),
    ensures
        decreases_to!(value => items@[i]),
{
    assert(decreases_to!(value => value->Array_0));
    assert(decreases_to!(items => items@));
    assert(decreases_to!(items@ => items@[i]));
}

/// Appends the repository ids in a document to `out`.
fn collect_model_ids(value: &JsonValue, out: &mut Vec<String>)
    ensures
        texts(final(out)@) == texts(old(out)@) + ids_in(*value),
    decreases value,
{
    let ghost before = texts(out@);
    match value {
        JsonValue::Object(entries) => {
            let keys = vec!["ModelId", "modelId", "Path", "path", "Name", "name"];
            assert(names(keys@) == id_keys());
            let mut k: usize = 0;
            while k < keys.len()
                invariant
                    k <= keys.len(),
                    names(keys@) == id_keys(),
                    texts(out@) == before + ids_under(entries@, id_keys().take(k as int)),
                decreases keys.len() - k,
            {
                let ghost sofar = texts(out@);
                assert(id_keys().take(k + 1).drop_last() == id_keys().take(k as int));
                assert(id_keys().take(k + 1).last() == keys@[k as int]@);
                if let Some(id) = find_text(entries, keys[k]) {
                    if contains_char(id.as_str(), '/') {
                        out.push(id);
                        assert(texts(out@) == sofar.push(id@));
                    }
                }
                k += 1;
            }
            assert(id_keys().take(k as int) == id_keys());
            let ghost own = texts(out@);
            let mut i: usize = 0;
            while i < entries.len()
                invariant
                    i <= entries.len(),
                    *value == JsonValue::Object(*entries),
                    texts(out@) == own + ids_in_entries(entries@.take(i as int)),
                decreases entries.len() - i,
            {
                proof {
                    lemma_member_decreases(*value, *entries, i as int);
                }
                collect_model_ids(&entries[i].value, out);
                assert(entries@.take(i + 1).drop_last() == entries@.take(i as int));
                i += 1;
            }
            assert(entries@.take(i as int) == entries@);
        },
        JsonValue::Array(items) => {
            let mut i: usize = 0;
            while i < items.len()
                invariant
                    i <= items.len(),
                    *value == JsonValue::Array(*items),
                    texts(out@) == before + ids_in_items(items@.take(i as int)),
                decreases items.len() - i,
            {
                proof {
                    lemma_item_decreases(*value, *items, i as int);
                }
                collect_model_ids(&items[i], out);
                assert(items@.take(i + 1).drop_last() == items@.take(i as int));
                i += 1;
            }
            assert(items@.take(i as int) == items@);
        },
        _ => {},
    }
}

/// Whether texts stand in increasing order, none twice.
pub open spec fn increasing(list: Seq<Seq<char>>) -> bool {
    forall|i: int, j: int| 0 <= i < j < list.len() ==> text_less(list[i], list[j])
}

/// Where a text belongs in an increasing list: behind the texts before it and in
/// front of those after it.
fn insert_position(list: &Vec<String>, id: &str) -> (pos: usize)
    requires
        increasing(texts(list@)),
    ensures
        pos <= list@.len(),
        forall|j: int| 0 <= j < pos ==> text_less(#[trigger] list@[j]@, id@),
        forall|j: int| pos <= j < list@.len() ==> !text_less(#[trigger] list@[j]@, id@),
{
    let mut pos: usize = list.len();
    while pos > 0 && !comes_before(list[pos - 1].as_str(), id)
        invariant
            pos <= list@.len(),
            forall|j: int| pos <= j < list@.len() ==> !text_less(#[trigger] list@[j]@, id@),
        decreases pos,
    {
        pos -= 1;
    }
    proof {
        if pos > 0 {
            assert forall|j: int| 0 <= j < pos implies text_less(#[trigger] list@[j]@, id@) by {
                if j < pos - 1 {
                    assert(texts(list@)[j] == list@[j]@);
                    assert(texts(list@)[pos - 1] == list@[pos - 1]@);
                    assert(text_less(texts(list@)[j], texts(list@)[pos - 1]));
                    crate::text::lemma_text_less_transitive(
                        list@[j]@,
                        list@[pos - 1]@,
                        id@,
                    );
                }
            }
        }
    }
    pos
}

/// An increasing list stays increasing when a new text is put where it belongs.
proof fn lemma_insert_increasing(list: Seq<Seq<char>>, pos: int, id: Seq<char>)
    requires
        increasing(list),
        0 <= pos <= list.len(),
        forall|j: int| 0 <= j < pos ==> text_less(#[trigger] list[j], id),
        forall|j: int| pos <= j < list.len() ==> !text_less(#[trigger] list[j], id),
        pos < list.len() ==> list[pos] != id,
    ensures
        increasing(list.insert(pos, id)),
{
    let after = list.insert(pos, id);
    assert forall|i: int, j: int| 0 <= i < j < after.len() implies text_less(after[i], after[j]) by {
        if i == pos {
            crate::text::lemma_text_less_total(list[pos], id);
            if j > pos + 1 {
                assert(text_less(list[pos], list[j - 1]));
                crate::text::lemma_text_less_transitive(id, list[pos], list[j - 1]);
            }
        } else if j == pos {
            assert(text_less(list[i], id));
        } else {
            let p = if i < pos { i } else { i - 1 };
            let q = if j < pos { j } else { j - 1 };
            assert(text_less(list[p], list[q]));
        }
    }
}

/// The repository ids in a document, in increasing order and each once.
pub fn extract_model_ids(value: &JsonValue) -> (out: Vec<String>)
    ensures
        increasing(texts(out@)),
        forall|id: Seq<char>| #[trigger]
            texts(out@).contains(id) <==> ids_in(*value).contains(id),
{
    let mut all: Vec<String> = Vec::new();
    collect_model_ids(value, &mut all);
    assert(texts(all@) == ids_in(*value));
    let ghost wanted = ids_in(*value);
    let mut out: Vec<String> = Vec::new();
    let mut i: usize = 0;
    while i < all.len()
        invariant
            i <= all.len(),
            texts(all@) == wanted,
            increasing(texts(out@)),
            forall|id: Seq<char>| #[trigger]
                texts(out@).contains(id) <==> wanted.take(i as int).contains(id),
        decreases all.len() - i,
    {
        let id = all[i].clone();
        let pos = insert_position(&out, id.as_str());
        let ghost before = texts(out@);
        assert(id@ == wanted[i as int]);
        let ghost seen = wanted.take(i as int);
        let ghost next = wanted.take(i + 1);
        assert(next == seen.push(id@));
        assert forall|x: Seq<char>| #[trigger]
            next.contains(x) <==> seen.contains(x) || x == id@ by {
            if seen.contains(x) {
                let k = seen.index_of(x);
                assert(next[k] == x);
            }
            if next.contains(x) && x != id@ {
                let k = next.index_of(x);
                assert(seen[k] == x);
            }
            assert(next[i as int] == id@);
        }
        if pos < out.len() && same_text(out[pos].as_str(), id.as_str()) {
            assert(before[pos as int] == id@);
            assert(before.contains(id@));
        } else {
            proof {
                assert forall|j: int| 0 <= j < pos implies text_less(#[trigger] before[j], id@) by {
                    assert(before[j] == out@[j]@);
                }
                assert forall|j: int| pos <= j < before.len() implies !text_less(
                    #[trigger] before[j],
                    id@,
                ) by {
                    assert(before[j] == out@[j]@);
                }
                lemma_insert_increasing(before, pos as int, id@);
            }
            out.insert(pos, id);
            assert(texts(out@) == before.insert(pos as int, id@));
            assert forall|x: Seq<char>| #[trigger]
                texts(out@).contains(x) <==> before.contains(x) || x == id@ by {
                let after = texts(out@);
                assert(after[pos as int] == id@);
                if before.contains(x) {
                    let k = before.index_of(x);
                    assert(after[if k < pos { k } else { k + 1 }] == x);
                }
                if after.contains(x) && x != id@ {
                    let k = after.index_of(x);
                    assert(before[if k < pos { k } else { k - 1 }] == x);
                }
            }
        }
        assert forall|x: Seq<char>| #[trigger] texts(out@).contains(x) <==> next.contains(x) by {
            assert(before.contains(x) <==> seen.contains(x));
            assert(next.contains(x) <==> seen.contains(x) || x == id@);
        }
        i += 1;
    }
    assert(wanted.take(i as int) == wanted);
    out
}

/// The members of an object that can name a file, in the order of preference.
pub open spec fn path_keys() -> Seq<Seq<char>> {
    seq!["Path"@, "path"@, "Name"@, "name"@, "FilePath"@, "filePath"@]
}

/// Whether an object describes a directory.
pub open spec fn is_directory(entries: Seq<JsonEntry>) -> bool {
    match first_text_at(entries, seq!["Type"@, "type"@]) {
        Some(kind) => same_ignoring_case(kind, "tree"@) || same_ignoring_case(kind, "dir"@),
        None => false,
    }
}

/// The file that an object describes: it has a path with a `.` that does not end in
/// `/`, and it is no directory.
pub open spec fn file_at(entries: Seq<JsonEntry>) -> Option<FileView> {
    match first_text_at(entries, path_keys()) {
        Some(path) if !is_directory(entries) && !ends_with_char(path, '/') && path.contains('.') => {
            Some(
                FileView {
                    path,
                    size: first_number_at(entries, seq!["Size"@, "size"@]),
                    sha256: first_text_at(entries, seq!["Sha256"@, "sha256"@, "SHA256"@]),
                    md5: first_text_at(entries, seq!["Md5"@, "md5"@, "MD5"@]),
                },
            )
        },
        _ => None,
    }
}

/// The files in a document: for each object its own, then those of what is in it.
pub open spec fn files_in(value: JsonValue) -> Seq<FileView>
    decreases value,
{
    match value {
        JsonValue::Object(entries) => {
            let inner = files_in_entries(entries@);
            match file_at(entries@) {
                Some(file) => seq![file] + inner,
                None => inner,
            }
        },
        JsonValue::Array(items) => files_in_items(items@),
        _ => Seq::empty(),
    }
}

/// The files in the values of an object's members.
pub open spec fn files_in_entries(entries: Seq<JsonEntry>) -> Seq<FileView>
    decreases entries,
{
    if entries.len() == 0 {
        Seq::empty()
    } else {
        files_in_entries(entries.drop_last()) + files_in(entries[entries.len() - 1].value)
    }
}

/// The files in the items of an array.
pub open spec fn files_in_items(items: Seq<JsonValue>) -> Seq<FileView>
    decreases items,
{
    if items.len() == 0 {
        Seq::empty()
    } else {
        files_in_items(items.drop_last()) + files_in(items[items.len() - 1])
    }
}

/// The file that an object describes, if it describes one.
pub fn read_file(entries: &Vec<JsonEntry>) -> (r: Option<RemoteFile>)
    ensures
        match r {
            Some(file) => file_at(entries@) == Some(file@),
            None => file_at(entries@) is None,
        },
{
    let path_names = vec!["Path", "path", "Name", "name", "FilePath", "filePath"];
    assert(names(path_names@) == path_keys());
    let path = match find_first_text(entries, &path_names) {
        Some(path) => path,
        None => return None,
    };
    let type_names = vec!["Type", "type"];
    assert(names(type_names@) == seq!["Type"@, "type"@]);
    let directory = match find_first_text(entries, &type_names) {
        Some(kind) => {
            eq_ignore_case(kind.as_str(), "tree") || eq_ignore_case(kind.as_str(), "dir")
        },
        None => false,
    };
    if directory || has_last_char(path.as_str(), '/') || !contains_char(path.as_str(), '.') {
        return None;
    }
    let size_names = vec!["Size", "size"];
    assert(names(size_names@) == seq!["Size"@, "size"@]);
    let sha256_names = vec!["Sha256", "sha256", "SHA256"];
    assert(names(sha256_names@) == seq!["Sha256"@, "sha256"@, "SHA256"@]);
    let md5_names = vec!["Md5", "md5", "MD5"];
    assert(names(md5_names@) == seq!["Md5"@, "md5"@, "MD5"@]);
    Some(
        RemoteFile {
            path,
            size: find_first_number(entries, &size_names),
            sha256: find_first_text(entries, &sha256_names),
            md5: find_first_text(entries, &md5_names),
        },
    )
}

/// Appends the files in a document to `out`.
fn collect_files(value: &JsonValue, out: &mut Vec<RemoteFile>)
    ensures
        file_views(final(out)@) == file_views(old(out)@) + files_in(*value),
    decreases value,
{
    let ghost before = file_views(out@);
    match value {
        JsonValue::Object(entries) => {
            let own = read_file(entries);
            match own {
                Some(file) => {
                    out.push(file);
                    assert(file_views(out@) == before + seq![file@]);
                },
                None => {},
            }
            let ghost start = file_views(out@);
            let mut i: usize = 0;
            while i < entries.len()
                invariant
                    i <= entries.len(),
                    *value == JsonValue::Object(*entries),
                    file_views(out@) == start + files_in_entries(entries@.take(i as int)),
                decreases entries.len() - i,
            {
                proof {
                    lemma_member_decreases(*value, *entries, i as int);
                }
                collect_files(&entries[i].value, out);
                assert(entries@.take(i + 1).drop_last() == entries@.take(i as int));
                i += 1;
            }
            assert(entries@.take(i as int) == entries@);
        },
        JsonValue::Array(items) => {
            let mut i: usize = 0;
            while i < items.len()
                invariant
                    i <= items.len(),
                    *value == JsonValue::Array(*items),
                    file_views(out@) == before + files_in_items(items@.take(i as int)),
                decreases items.len() - i,
            {
                proof {
                    lemma_item_decreases(*value, *items, i as int);
                }
                collect_files(&items[i], out);
                assert(items@.take(i + 1).drop_last() == items@.take(i as int));
                i += 1;
            }
            assert(items@.take(i as int) == items@);
        },
        _ => {},
    }
}

/// The paths of a list of files.
pub open spec fn paths_of(files: Seq<FileView>) -> Seq<Seq<char>> {
    Seq::new(files.len(), |i: int| files[i].path)
}

/// Whether `file` is the first of `all` with its path.
pub open spec fn is_first_with_path(all: Seq<FileView>, file: FileView) -> bool {
    exists|k: int|
        0 <= k < all.len() && #[trigger] all[k] == file && forall|j: int|
            0 <= j < k ==> (#[trigger] all[j]).path != file.path
}

/// Whether `out` holds, in increasing order of paths, the first file of `all` with
/// each path.
pub open spec fn first_of_each_path(all: Seq<FileView>, out: Seq<FileView>) -> bool {
    &&& increasing(paths_of(out))
    &&& forall|i: int| 0 <= i < out.len() ==> is_first_with_path(all, #[trigger] out[i])
    &&& forall|k: int| 0 <= k < all.len() ==> paths_of(out).contains((#[trigger] all[k]).path)
}

/// A file that is the first with its path stays so when files are appended.
proof fn lemma_first_stays(all: Seq<FileView>, next: FileView, file: FileView)
    requires
        is_first_with_path(all, file),
    ensures
        is_first_with_path(all.push(next), file),
{
    let k = choose|k: int|
        0 <= k < all.len() && #[trigger] all[k] == file && forall|j: int|
            0 <= j < k ==> (#[trigger] all[j]).path != file.path;
    assert(all.push(next)[k] == file);
    assert forall|j: int| 0 <= j < k implies (#[trigger] all.push(next)[j]).path != file.path by {
        assert(all.push(next)[j] == all[j]);
    }
}

/// The files in a document, in increasing order of paths; of several files with one
/// path the first that is met.
pub fn extract_files(value: &JsonValue) -> (out: Vec<RemoteFile>)
    ensures
        first_of_each_path(files_in(*value), file_views(out@)),
{
    let mut all: Vec<RemoteFile> = Vec::new();
    collect_files(value, &mut all);
    assert(file_views(all@) == files_in(*value));
    let ghost wanted = files_in(*value);
    let mut out: Vec<RemoteFile> = Vec::new();
    let mut keys: Vec<String> = Vec::new();
    let mut i: usize = 0;
    while i < all.len()
        invariant
            i <= all.len(),
            file_views(all@) == wanted,
            texts(keys@) == paths_of(file_views(out@)),
            keys@.len() == out@.len(),
            first_of_each_path(wanted.take(i as int), file_views(out@)),
        decreases all.len() - i,
    {
        let file = all[i].clone();
        let pos = insert_position(&keys, file.path.as_str());
        let ghost seen = wanted.take(i as int);
        let ghost before = file_views(out@);
        let ghost old_keys = texts(keys@);
        assert(file@ == wanted[i as int]);
        assert(wanted.take(i + 1) == seen.push(file@));
        assert forall|k: int| 0 <= k < before.len() implies is_first_with_path(
            seen.push(file@),
            #[trigger] before[k],
        ) by {
            lemma_first_stays(seen, file@, before[k]);
        }
        if pos < keys.len() && same_text(keys[pos].as_str(), file.path.as_str()) {
            assert(old_keys[pos as int] == file@.path);
            assert forall|k: int| 0 <= k < i + 1 implies old_keys.contains(
                (#[trigger] seen.push(file@)[k]).path,
            ) by {
                if k < i {
                    assert(seen.push(file@)[k] == seen[k]);
                }
            }
        } else {
            proof {
                assert forall|j: int| 0 <= j < pos implies text_less(
                    #[trigger] old_keys[j],
                    file@.path,
                ) by {
                    assert(old_keys[j] == keys@[j]@);
                }
                assert forall|j: int| pos <= j < old_keys.len() implies !text_less(
                    #[trigger] old_keys[j],
                    file@.path,
                ) by {
                    assert(old_keys[j] == keys@[j]@);
                }
                lemma_insert_increasing(old_keys, pos as int, file@.path);
                lemma_new_path(old_keys, pos as int, file@.path);
            }
            let path = file.path.clone();
            out.insert(pos, file);
            keys.insert(pos, path);
            let ghost after = file_views(out@);
            let ghost new_keys = texts(keys@);
            assert(after == before.insert(pos as int, file@));
            assert(new_keys == old_keys.insert(pos as int, file@.path));
            assert(new_keys == paths_of(after));
            assert forall|k: int| 0 <= k < after.len() implies is_first_with_path(
                seen.push(file@),
                #[trigger] after[k],
            ) by {
                if k == pos {
                    assert(seen.push(file@)[i as int] == file@);
                    assert forall|j: int| 0 <= j < i implies (#[trigger] seen.push(file@)[j]).path
                        != file@.path by {
                        assert(seen.push(file@)[j] == seen[j]);
                        assert(old_keys.contains(seen[j].path));
                    }
                } else {
                    assert(after[k] == before[if k < pos { k as int } else { k - 1 }]);
                }
            }
            assert forall|k: int| 0 <= k < i + 1 implies new_keys.contains(
                (#[trigger] seen.push(file@)[k]).path,
            ) by {
                if k < i {
                    assert(seen.push(file@)[k] == seen[k]);
                    assert(old_keys.contains(seen[k].path));
                    let m = old_keys.index_of(seen[k].path);
                    assert(new_keys[if m < pos { m } else { m + 1 }] == seen[k].path);
                } else {
                    assert(new_keys[pos as int] == file@.path);
                }
            }
        }
        i += 1;
    }
    assert(wanted.take(i as int) == wanted);
    out
}

/// A text that is not at the place where it belongs in an increasing list is not in
/// the list.
proof fn lemma_new_path(list: Seq<Seq<char>>, pos: int, id: Seq<char>)
    requires
        increasing(list),
        0 <= pos <= list.len(),
        forall|j: int| 0 <= j < pos ==> text_less(#[trigger] list[j], id),
        forall|j: int| pos <= j < list.len() ==> !text_less(#[trigger] list[j], id),
        pos < list.len() ==> list[pos] != id,
    ensures
        !list.contains(id),
{
    if list.contains(id) {
        let k = list.index_of(id);
        crate::text::lemma_text_less_irreflexive(id);
        if k > pos {
            assert(text_less(list[pos], list[k]));
        }
    }
}

/// Increasing lists with the same texts are the same list.
proof fn lemma_increasing_unique(a: Seq<Seq<char>>, b: Seq<Seq<char>>)
    requires
        increasing(a),
        increasing(b),
        forall|x: Seq<char>| a.contains(x) <==> b.contains(x),
    ensures
        a == b,
    decreases a.len(),
{
    if a.len() == 0 {
        if b.len() > 0 {
            assert(b.contains(b[0]));
        }
        assert(a =~= b);
    } else {
        assert(a.contains(a.last()));
        let p = a.last();
        let n = b.index_of(p);
        assert(b.contains(b.last()));
        let q = b.last();
        let m = a.index_of(q);
        if p != q {
            assert(text_less(b[n], b[b.len() - 1]));
            assert(text_less(a[m], a[a.len() - 1]));
            crate::text::lemma_text_less_transitive(p, q, p);
            crate::text::lemma_text_less_irreflexive(p);
        }
        assert forall|x: Seq<char>| a.drop_last().contains(x) <==> b.drop_last().contains(x) by {
            if a.drop_last().contains(x) {
                let k = a.drop_last().index_of(x);
                assert(a[k] == x);
                assert(text_less(a[k], a[a.len() - 1]));
                crate::text::lemma_text_less_irreflexive(p);
                assert(a.contains(x));
                let l = b.index_of(x);
                assert(b.drop_last()[l] == x);
            }
            if b.drop_last().contains(x) {
                let k = b.drop_last().index_of(x);
                assert(b[k] == x);
                assert(text_less(b[k], b[b.len() - 1]));
                crate::text::lemma_text_less_irreflexive(p);
                assert(b.contains(x));
                let l = a.index_of(x);
                assert(a.drop_last()[l] == x);
            }
        }
        lemma_increasing_unique(a.drop_last(), b.drop_last());
        assert(a =~= a.drop_last().push(p));
        assert(b =~= b.drop_last().push(q));
    }
}

/// A document has one listing: two lists that hold the first file with each path in
/// increasing order of paths are equal.
pub proof fn listing_is_unique(all: Seq<FileView>, a: Seq<FileView>, b: Seq<FileView>)
    requires
        first_of_each_path(all, a),
        first_of_each_path(all, b),
    ensures
        a == b,
{
    let (pa, pb) = (paths_of(a), paths_of(b));
    assert forall|x: Seq<char>| pa.contains(x) <==> pb.contains(x) by {
        if pa.contains(x) {
            assert(is_first_with_path(all, a[pa.index_of(x)]));
        }
        if pb.contains(x) {
            assert(is_first_with_path(all, b[pb.index_of(x)]));
        }
    }
    lemma_increasing_unique(pa, pb);
    assert(pa.len() == a.len() && pb.len() == b.len());
    assert forall|i: int| 0 <= i < a.len() implies a[i] == b[i] by {
        assert(is_first_with_path(all, a[i]));
        assert(is_first_with_path(all, b[i]));
        assert(pa[i] == pb[i]);
    }
    assert(a =~= b);
}

/// A document has one list of repository ids: two increasing lists of the same ids
/// are equal.
pub proof fn id_list_is_unique(ids: Seq<Seq<char>>, a: Seq<Seq<char>>, b: Seq<Seq<char>>)
    requires
        increasing(a),
        increasing(b),
        forall|id: Seq<char>| #[trigger] a.contains(id) <==> ids.contains(id),
        forall|id: Seq<char>| #[trigger] b.contains(id) <==> ids.contains(id),
    ensures
        a == b,
{
    lemma_increasing_unique(a, b);
}

/// The text under the first of several keys, found key by key.
proof fn lemma_first_text(entries: Seq<JsonEntry>, key: Seq<char>, rest: Seq<Seq<char>>)
    ensures
        first_text_at(entries, seq![key] + rest) == (match text_at(entries, key) {
            Some(text) => Some(text),
            None => first_text_at(entries, rest),
        }),
        first_number_at(entries, seq![key] + rest) == (match number_at(entries, key) {
            Some(number) => Some(number),
            None => first_number_at(entries, rest),
        }),
{
    assert((seq![key] + rest).drop_first() =~= rest);
}

/// The texts and numbers under the keys that the reading of a file knows, key by key.
proof fn lemma_keys(entries: Seq<JsonEntry>)
    ensures
        first_text_at(entries, path_keys()) == first_given(
            text_at(entries, "Path"@),
            first_given(
                text_at(entries, "path"@),
                first_given(
                    text_at(entries, "Name"@),
                    first_given(
                        text_at(entries, "name"@),
                        first_given(
                            text_at(entries, "FilePath"@),
                            text_at(entries, "filePath"@),
                        ),
                    ),
                ),
            ),
        ),
        first_text_at(entries, seq!["Type"@, "type"@]) == first_given(
            text_at(entries, "Type"@),
            text_at(entries, "type"@),
        ),
        first_number_at(entries, seq!["Size"@, "size"@]) == (if number_at(
            entries,
            "Size"@,
        ) is Some {
            number_at(entries, "Size"@)
        } else {
            number_at(entries, "size"@)
        }),
        first_text_at(entries, seq!["Sha256"@, "sha256"@, "SHA256"@]) == first_given(
            text_at(entries, "Sha256"@),
            first_given(text_at(entries, "sha256"@), text_at(entries, "SHA256"@)),
        ),
        first_text_at(entries, seq!["Md5"@, "md5"@, "MD5"@]) == first_given(
            text_at(entries, "Md5"@),
            first_given(text_at(entries, "md5"@), text_at(entries, "MD5"@)),
        ),
{
    let none = Seq::<Seq<char>>::empty();
    let p1 = seq!["filePath"@] + none;
    let p2 = seq!["FilePath"@] + p1;
    let p3 = seq!["name"@] + p2;
    let p4 = seq!["Name"@] + p3;
    let p5 = seq!["path"@] + p4;
    let p6 = seq!["Path"@] + p5;
    assert(path_keys() =~= p6);
    lemma_first_text(entries, "filePath"@, none);
    lemma_first_text(entries, "FilePath"@, p1);
    lemma_first_text(entries, "name"@, p2);
    lemma_first_text(entries, "Name"@, p3);
    lemma_first_text(entries, "path"@, p4);
    lemma_first_text(entries, "Path"@, p5);
    let t1 = seq!["type"@] + none;
    assert(seq!["Type"@, "type"@] =~= seq!["Type"@] + t1);
    lemma_first_text(entries, "type"@, none);
    lemma_first_text(entries, "Type"@, t1);
    let n1 = seq!["size"@] + none;
    assert(seq!["Size"@, "size"@] =~= seq!["Size"@] + n1);
    lemma_first_text(entries, "size"@, none);
    lemma_first_text(entries, "Size"@, n1);
    let s1 = seq!["SHA256"@] + none;
    let s2 = seq!["sha256"@] + s1;
    assert(seq!["Sha256"@, "sha256"@, "SHA256"@] =~= seq!["Sha256"@] + s2);
    lemma_first_text(entries, "SHA256"@, none);
    lemma_first_text(entries, "sha256"@, s1);
    lemma_first_text(entries, "Sha256"@, s2);
    let m1 = seq!["MD5"@] + none;
    let m2 = seq!["md5"@] + m1;
    assert(seq!["Md5"@, "md5"@, "MD5"@] =~= seq!["Md5"@] + m2);
    lemma_first_text(entries, "MD5"@, none);
    lemma_first_text(entries, "md5"@, m1);
    lemma_first_text(entries, "Md5"@, m2);
}

/// An object whose member `Path` is a text describes no file but the one with that path,
/// whatever its other members say; without it the same holds of `path`, then of `Name`, `name`,
/// `FilePath` and `filePath`, and an object without any of them describes none.
pub proof fn paths_name_files(entries: Seq<JsonEntry>)
    ensures
        file_at(entries) matches Some(file) ==> {
            &&& text_at(entries, "Path"@) matches Some(path) ==> file.path == path
            &&& text_at(entries, "Path"@) is None ==> {
                &&& text_at(entries, "path"@) matches Some(path) ==> file.path == path
                &&& text_at(entries, "path"@) is None ==> {
                    &&& text_at(entries, "Name"@) matches Some(path) ==> file.path == path
                    &&& text_at(entries, "Name"@) is None ==> {
                        &&& text_at(entries, "name"@) matches Some(path) ==> file.path == path
                        &&& text_at(entries, "name"@) is None ==> {
                            &&& text_at(entries, "FilePath"@) matches Some(path) ==> file.path
                                == path
                            &&& text_at(entries, "FilePath"@) is None ==> text_at(
                                entries,
                                "filePath"@,
                            ) == Some(file.path)
                        }
                    }
                }
            }
        },
{
    lemma_keys(entries);
}

/// An object with a path describes a file exactly if the path has a dot and no slash at its
/// end, and the type, where one is told, is neither `tree` nor `dir` in whatever case.
pub proof fn only_files_are_listed(entries: Seq<JsonEntry>, path: Seq<char>)
    requires
        text_at(entries, "Path"@) == Some(path),
    ensures
        ({
            let kind = if text_at(entries, "Type"@) is Some {
                text_at(entries, "Type"@)
            } else {
                text_at(entries, "type"@)
            };
            file_at(entries) is Some <==> {
                &&& exists|i: int| 0 <= i < path.len() && #[trigger] path[i] == '.'
                &&& path[path.len() - 1] != '/'
                &&& kind matches Some(kind) ==> !same_ignoring_case(kind, seq!['t', 'r', 'e', 'e'])
                    && !same_ignoring_case(kind, seq!['d', 'i', 'r'])
            }
        }),
{
    reveal_strlit("tree");
    reveal_strlit("dir");
    assert("tree"@ =~= seq!['t', 'r', 'e', 'e']);
    assert("dir"@ =~= seq!['d', 'i', 'r']);
    lemma_keys(entries);
    if path.contains('.') {
        assert(path[path.index_of('.')] == '.');
    }
}

/// What an object tells of its file is kept: the number under `Size` or else `size`, and the
/// checksums under their names with an initial capital, then in lower and in upper case.
pub proof fn told_values_are_kept(entries: Seq<JsonEntry>, file: FileView)
    requires
        file_at(entries) == Some(file),
    ensures
        number_at(entries, "Size"@) is Some ==> file.size == number_at(entries, "Size"@),
        number_at(entries, "Size"@) is None ==> file.size == number_at(entries, "size"@),
        text_at(entries, "Sha256"@) is Some ==> file.sha256 == text_at(entries, "Sha256"@),
        text_at(entries, "Sha256"@) is None && text_at(entries, "sha256"@) is Some ==> file.sha256
            == text_at(entries, "sha256"@),
        text_at(entries, "Sha256"@) is None && text_at(entries, "sha256"@) is None ==> file.sha256
            == text_at(entries, "SHA256"@),
        text_at(entries, "Md5"@) is Some ==> file.md5 == text_at(entries, "Md5"@),
        text_at(entries, "Md5"@) is None && text_at(entries, "md5"@) is Some ==> file.md5
            == text_at(entries, "md5"@),
        text_at(entries, "Md5"@) is None && text_at(entries, "md5"@) is None ==> file.md5
            == text_at(entries, "MD5"@),
{
    lemma_keys(entries);
}

/// A document lists the files of its parts: of an object its own file first and then those of
/// its members, of an array those of its items, each in order; other values list none.
pub proof fn documents_list_their_parts(
    entries: Vec<JsonEntry>,
    items: Vec<JsonValue>,
    text: String,
    a: Seq<JsonValue>,
    b: Seq<JsonValue>,
    item: JsonValue,
    c: Seq<JsonEntry>,
    d: Seq<JsonEntry>,
    member: JsonEntry,
)
    ensures
        file_at(entries@) matches Some(file) ==> files_in(JsonValue::Object(entries)) == seq![file]
            + files_in_entries(entries@),
        file_at(entries@) is None ==> files_in(JsonValue::Object(entries)) == files_in_entries(
            entries@,
        ),
        files_in(JsonValue::Array(items)) == files_in_items(items@),
        files_in(JsonValue::Text(text)) == Seq::<FileView>::empty(),
        files_in(JsonValue::Null) == Seq::<FileView>::empty(),
        files_in_items(a + b) == files_in_items(a) + files_in_items(b),
        files_in_items(seq![item]) == files_in(item),
        files_in_entries(c + d) == files_in_entries(c) + files_in_entries(d),
        files_in_entries(seq![member]) == files_in(member.value),
{
    lemma_file_items(a, b);
    lemma_file_entries(c, d);
    let none = Seq::<FileView>::empty();
    assert(seq![item].drop_last() =~= Seq::<JsonValue>::empty());
    assert(files_in_items(Seq::<JsonValue>::empty()) =~= none);
    assert(none + files_in(item) =~= files_in(item));
    assert(seq![member].drop_last() =~= Seq::<JsonEntry>::empty());
    assert(files_in_entries(Seq::<JsonEntry>::empty()) =~= none);
    assert(none + files_in(member.value) =~= files_in(member.value));
}

/// The files of two lists of items one after the other.
proof fn lemma_file_items(a: Seq<JsonValue>, b: Seq<JsonValue>)
    ensures
        files_in_items(a + b) == files_in_items(a) + files_in_items(b),
    decreases b.len(),
{
    if b.len() == 0 {
        assert(a + b =~= a);
        assert(files_in_items(a) + files_in_items(b) =~= files_in_items(a));
    } else {
        assert((a + b).drop_last() =~= a + b.drop_last());
        lemma_file_items(a, b.drop_last());
        assert(files_in_items(a + b) =~= files_in_items(a) + files_in_items(b));
    }
}

/// The files of two lists of members one after the other.
proof fn lemma_file_entries(a: Seq<JsonEntry>, b: Seq<JsonEntry>)
    ensures
        files_in_entries(a + b) == files_in_entries(a) + files_in_entries(b),
    decreases b.len(),
{
    if b.len() == 0 {
        assert(a + b =~= a);
        assert(files_in_entries(a) + files_in_entries(b) =~= files_in_entries(a));
    } else {
        assert((a + b).drop_last() =~= a + b.drop_last());
        lemma_file_entries(a, b.drop_last());
        assert(files_in_entries(a + b) =~= files_in_entries(a) + files_in_entries(b));
    }
}

/// A listing holds every path that the document lists, once and in the order of characters, with
/// what the document says where the path is met first.
pub proof fn listings_hold_every_path(all: Seq<FileView>, out: Seq<FileView>, k: int)
    requires
        first_of_each_path(all, out),
        0 <= k < all.len(),
    ensures
        exists|i: int| 0 <= i < out.len() && (#[trigger] out[i]).path == all[k].path,
        (forall|j: int| 0 <= j < k ==> (#[trigger] all[j]).path != all[k].path) ==> out.contains(
            all[k],
        ),
        forall|i: int, j: int|
            0 <= i < j < out.len() ==> text_less((#[trigger] out[i]).path, (#[trigger] out[j]).path),
        forall|i: int| 0 <= i < out.len() ==> all.contains(#[trigger] out[i]),
{
    let paths = paths_of(out);
    assert(paths.contains(all[k].path));
    let i = paths.index_of(all[k].path);
    assert(out[i].path == all[k].path);
    assert(is_first_with_path(all, out[i]));
    let m = choose|m: int|
        0 <= m < all.len() && #[trigger] all[m] == out[i] && forall|j: int|
            0 <= j < m ==> (#[trigger] all[j]).path != out[i].path;
    if forall|j: int| 0 <= j < k ==> (#[trigger] all[j]).path != all[k].path {
        assert(m == k) by {
            if m < k {
                assert(all[m].path == all[k].path);
            }
            if k < m {
                assert(all[k].path != out[i].path);
            }
        }
        assert(out[i] == all[k]);
    }
    assert forall|i: int, j: int| 0 <= i < j < out.len() implies text_less(
        (#[trigger] out[i]).path,
        (#[trigger] out[j]).path,
    ) by {
        assert(text_less(paths[i], paths[j]));
    }
    assert forall|i: int| 0 <= i < out.len() implies all.contains(#[trigger] out[i]) by {
        assert(is_first_with_path(all, out[i]));
    }
}

/// The ids of an object are the texts with a slash under `ModelId`, `Path` and `Name`, each with
/// a capital or without.
pub proof fn ids_have_a_slash(entries: Seq<JsonEntry>, id: Seq<char>)
    ensures
        ids_under(entries, id_keys()).contains(id) <==> {
            &&& exists|i: int| 0 <= i < id.len() && #[trigger] id[i] == '/'
            &&& {
                ||| text_at(entries, "ModelId"@) == Some(id)
                ||| text_at(entries, "modelId"@) == Some(id)
                ||| text_at(entries, "Path"@) == Some(id)
                ||| text_at(entries, "path"@) == Some(id)
                ||| text_at(entries, "Name"@) == Some(id)
                ||| text_at(entries, "name"@) == Some(id)
            }
        },
{
    if id.contains('/') {
        assert(id[id.index_of('/')] == '/');
    }
    let keys = id_keys();
    lemma_ids_under(entries, keys, id);
    assert(keys[0] == "ModelId"@ && keys[1] == "modelId"@ && keys[2] == "Path"@ && keys[3]
        == "path"@ && keys[4] == "Name"@ && keys[5] == "name"@);
}

/// The ids under keys are the texts with a slash under any of them.
proof fn lemma_ids_under(entries: Seq<JsonEntry>, keys: Seq<Seq<char>>, id: Seq<char>)
    ensures
        ids_under(entries, keys).contains(id) <==> id.contains('/') && exists|k: int|
            0 <= k < keys.len() && text_at(entries, #[trigger] keys[k]) == Some(id),
    decreases keys.len(),
{
    if keys.len() > 0 {
        let rest = keys.drop_last();
        lemma_ids_under(entries, rest, id);
        let (before, all) = (ids_under(entries, rest), ids_under(entries, keys));
        let last = keys.len() - 1;
        if before.contains(id) {
            assert(all[before.index_of(id)] == id);
            let k = choose|k: int|
                0 <= k < rest.len() && text_at(entries, #[trigger] rest[k]) == Some(id);
            assert(text_at(entries, keys[k]) == Some(id));
        }
        if text_at(entries, keys[last]) == Some(id) && id.contains('/') {
            assert(all[before.len() as int] == id);
        }
        if all.contains(id) && !before.contains(id) {
            let n = all.index_of(id);
            if n < before.len() {
                assert(before[n] == id);
            }
            assert(text_at(entries, keys[last]) == Some(id));
        }
        if exists|k: int| 0 <= k < keys.len() && text_at(entries, #[trigger] keys[k]) == Some(id) {
            let k = choose|k: int|
                0 <= k < keys.len() && text_at(entries, #[trigger] keys[k]) == Some(id);
            if k < last {
                assert(text_at(entries, rest[k]) == Some(id));
            }
        }
    }
}

/// A document names the ids of its parts: of an object its own and those of its members, of an
/// array those of its items; other values name none.
pub proof fn documents_name_the_ids_of_their_parts(
    entries: Vec<JsonEntry>,
    items: Vec<JsonValue>,
    text: String,
    a: Seq<JsonValue>,
    b: Seq<JsonValue>,
    item: JsonValue,
    c: Seq<JsonEntry>,
    d: Seq<JsonEntry>,
    member: JsonEntry,
)
    ensures
        ids_in(JsonValue::Object(entries)) == ids_under(entries@, id_keys()) + ids_in_entries(
            entries@,
        ),
        ids_in(JsonValue::Array(items)) == ids_in_items(items@),
        ids_in(JsonValue::Text(text)) == Seq::<Seq<char>>::empty(),
        ids_in(JsonValue::Null) == Seq::<Seq<char>>::empty(),
        ids_in_items(a + b) == ids_in_items(a) + ids_in_items(b),
        ids_in_items(seq![item]) == ids_in(item),
        ids_in_entries(c + d) == ids_in_entries(c) + ids_in_entries(d),
        ids_in_entries(seq![member]) == ids_in(member.value),
{
    lemma_id_items(a, b);
    lemma_id_entries(c, d);
    let none = Seq::<Seq<char>>::empty();
    assert(seq![item].drop_last() =~= Seq::<JsonValue>::empty());
    assert(ids_in_items(Seq::<JsonValue>::empty()) =~= none);
    assert(none + ids_in(item) =~= ids_in(item));
    assert(seq![member].drop_last() =~= Seq::<JsonEntry>::empty());
    assert(ids_in_entries(Seq::<JsonEntry>::empty()) =~= none);
    assert(none + ids_in(member.value) =~= ids_in(member.value));
}

/// The ids of two lists of items one after the other.
proof fn lemma_id_items(a: Seq<JsonValue>, b: Seq<JsonValue>)
    ensures
        ids_in_items(a + b) == ids_in_items(a) + ids_in_items(b),
    decreases b.len(),
{
    if b.len() == 0 {
        assert(a + b =~= a);
        assert(ids_in_items(a) + ids_in_items(b) =~= ids_in_items(a));
    } else {
        assert((a + b).drop_last() =~= a + b.drop_last());
        lemma_id_items(a, b.drop_last());
        assert(ids_in_items(a + b) =~= ids_in_items(a) + ids_in_items(b));
    }
}

/// The ids of two lists of members one after the other.
proof fn lemma_id_entries(a: Seq<JsonEntry>, b: Seq<JsonEntry>)
    ensures
        ids_in_entries(a + b) == ids_in_entries(a) + ids_in_entries(b),
    decreases b.len(),
{
    if b.len() == 0 {
        assert(a + b =~= a);
        assert(ids_in_entries(a) + ids_in_entries(b) =~= ids_in_entries(a));
    } else {
        assert((a + b).drop_last() =~= a + b.drop_last());
        lemma_id_entries(a, b.drop_last());
        assert(ids_in_entries(a + b) =~= ids_in_entries(a) + ids_in_entries(b));
    }
}

/// The address of a file holds its revision and its path so that both can be read from it:
/// files that differ in either have different addresses.
pub proof fn addresses_tell_revisions_and_paths(
    source: &ModelScopeSource,
    a: ModelView,
    b: ModelView,
    p: Seq<char>,
    q: Seq<char>,
)
    requires
        a.source_id == b.source_id,
        source.file_url(a, p) == source.file_url(b, q),
    ensures
        a.revision == b.revision,
        p == q,
{
    reveal_strlit("&FilePath=");
    let start = source.base() + "/api/v1/models/"@ + a.source_id + "/repo?Revision="@;
    let (r, s) = (url_encoded(a.revision), url_encoded(b.revision));
    let (x, y) = (url_encoded(p), url_encoded(q));
    let mark = "&FilePath="@;
    let (left, right) = (r + mark + x, s + mark + y);
    assert(source.file_url(a, p) =~= start + left);
    assert(source.file_url(b, q) =~= start + right);
    assert(left =~= source.file_url(a, p).skip(start.len() as int));
    assert(right =~= source.file_url(b, q).skip(start.len() as int));
    encoded_texts_hold_no_separator(a.revision);
    encoded_texts_hold_no_separator(b.revision);
    let (tail_left, tail_right) = (mark.skip(1) + x, mark.skip(1) + y);
    assert(left =~= r.push('&') + tail_left);
    assert(right =~= s.push('&') + tail_right);
    cutting_is_at_the_first(left, '&', r, tail_left);
    cutting_is_at_the_first(right, '&', s, tail_right);
    url_encoding_is_injective(a.revision, b.revision);
    assert(x =~= tail_left.skip(mark.len() - 1));
    assert(y =~= tail_right.skip(mark.len() - 1));
    url_encoding_is_injective(p, q);
}

/// A listing is asked for at the revision, with all directories, and with the headers that every
/// request carries; a search names what is searched for.
pub proof fn requests_say_what_they_ask_for(
    source: &ModelScopeSource,
    model: ModelView,
    query: Seq<char>,
)
    ensures
        starts_with(source.listing(model).url, source.base()),
        source.listing(model).query.contains(
            FieldView { name: "Revision"@, value: model.revision },
        ),
        source.listing(model).query.contains(FieldView { name: "Recursive"@, value: "true"@ }),
        source.listing(model).headers == auth_fields(source.token()),
        starts_with(source.search(query).url, source.base()),
        source.search(query).query.contains(FieldView { name: "Name"@, value: query }),
        source.search(query).headers == auth_fields(source.token()),
        starts_with(source.file_url(model, query), source.base()),
{
    let n = source.base().len() as int;
    let list = source.listing(model);
    assert(list.query[0] == (FieldView { name: "Revision"@, value: model.revision }));
    assert(list.query[1] == (FieldView { name: "Recursive"@, value: "true"@ }));
    assert(list.url.take(n) =~= source.base());
    let search = source.search(query);
    assert(search.query[0] == (FieldView { name: "Name"@, value: query }));
    assert(search.url.take(n) =~= source.base());
    assert(source.file_url(model, query).take(n) =~= source.base());
}

/// A search asks for at most five models by the name that is looked for, and for nothing else.
pub proof fn searches_ask_for_five(source: &ModelScopeSource, query: Seq<char>)
    ensures
        source.search(query).url == source.base() + "/api/v1/models"@,
        source.search(query).query.len() == 2,
        source.search(query).query[0] == (FieldView { name: "Name"@, value: query }),
        source.search(query).query[1] == (FieldView { name: "PageSize"@, value: "5"@ }),
        source.search(query).headers == auth_fields(source.token()),
{
}

/// The files of a repository are listed below its id.
pub proof fn listings_are_below_the_id(source: &ModelScopeSource, model: ModelView)
    ensures
        source.listing(model).url == source.base() + "/api/v1/models/"@ + model.source_id
            + "/repo/files"@,
        source.listing(model).query.len() == 2,
{
}

} // verus!
