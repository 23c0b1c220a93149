//! Serving: from a request path and the fingerprint that the client claims
//! to either the file, a redirect to the URL with the current fingerprint,
//! or an error status.

use crate::failure::IoFailure;
use crate::lookup::{answers, current_fingerprint};
use crate::media::{content_type, content_type_of};
use crate::paths::{join, joined, starts_with};
use crate::uri::{
    all_plain, canonical_url, encode_segments, encoded_segments, is_plain, percent_encode,
    percent_encoded, query_of, redirect_url,
};
use crate::text::{same_text, texts};
use vstd::prelude::*;
use vstd::string::StrSliceExecFns;
use vstd::string::StringExecFns;

verus! {

/// Why a request is turned down.
#[derive(Debug, Clone, Copy, PartialEq, Eq, Structural)]
pub enum Error {
    /// The requested path is not under the directory that is served.
    OutOfBounds,
    /// The requested path is not valid text.
    Utf8,
    /// An I/O error occurred.
    Io { failure: IoFailure },
}

/// The status of a response.
#[derive(Debug, Clone, Copy, PartialEq, Eq, Structural)]
pub enum Status {
    /// 200: the file follows.
    Success,
    /// 302: the file is to be asked for under another URL.
    Found,
    /// 404: there is nothing to serve at this path.
    NotFound,
    /// 500: the server failed.
    InternalServerError,
}

impl Status {
    /// The number of a status.
    pub open spec fn number(self) -> u16 {
        match self {
            Status::Success => 200,
            Status::Found => 302,
            Status::NotFound => 404,
            Status::InternalServerError => 500,
        }
    }

    /// The number of a status.
    pub fn code(&self) -> (code: u16)
        ensures
            code == self.number(),
    {
        match self {
            Status::Success => 200,
            Status::Found => 302,
            Status::NotFound => 404,
            Status::InternalServerError => 500,
        }
    }
}

impl Error {
    /// The status that a client sees for an error. Only an I/O error other
    /// than a missing file shows as a failure of the server; a path outside
    /// the served directory looks like a missing file.
    pub open spec fn status(self) -> Status {
        match self {
            Error::Io { failure: IoFailure::Other } => Status::InternalServerError,
            _ => Status::NotFound,
        }
    }

    /// The status to answer with.
    pub fn respond_to(&self) -> (status: Status)
        ensures
            status == self.status(),
    {
        match self {
            Error::Io { failure: IoFailure::Other } => Status::InternalServerError,
            _ => Status::NotFound,
        }
    }
}

/// Where the files are and where they are mounted.
pub struct Config {
    /// The canonical path of the directory that is served, as components.
    pub serve_from: Vec<String>,
    /// The URL path under which the files are mounted.
    pub path_prefix: String,
}

/// The configuration together with the fingerprint table: what every
/// request is answered from.
pub struct StaticFiles {
    config: Config,
    hashes: &'static phf::Map<&'static str, &'static str>,
}

/// The key under which a URL path is looked up: the path without its first
/// character, the leading slash.
pub open spec fn lookup_key(path: Seq<char>) -> Seq<char> {
    if path.len() == 0 {
        path
    } else {
        path.skip(1)
    }
}

/// The URL of a file: the mount prefix, the path, and the query with the
/// current fingerprint where the table holds the path.
pub open spec fn url_for(prefix: Seq<char>, table: Map<Seq<char>, Seq<char>>, path: Seq<char>) -> Seq<
    char,
> {
    if table.contains_key(lookup_key(path)) {
        prefix + path + query_of(table[lookup_key(path)])
    } else {
        prefix + path
    }
}

impl StaticFiles {
    /// The components of the directory that is served.
    pub closed spec fn root(&self) -> Seq<Seq<char>> {
        texts(self.config.serve_from@)
    }

    /// The URL path under which the files are mounted.
    pub closed spec fn prefix(&self) -> Seq<char> {
        self.config.path_prefix@
    }

    /// The current fingerprint of every path that the table holds.
    pub closed spec fn table(&self) -> Map<Seq<char>, Seq<char>> {
        answers(*self.hashes)
    }

    /// Puts a configuration and a table together.
    pub fn new(config: Config, hashes: &'static phf::Map<&'static str, &'static str>) -> (files:
        StaticFiles)
        ensures
            files.root() == texts(config.serve_from@),
            files.prefix() == config.path_prefix@,
            files.table() == answers(*hashes),
    {
        StaticFiles { config, hashes }
    }

    /// The URL to write into a page for the file at `path`, a URL path
    /// below the mount point that starts with a slash: the URL carries the
    /// current fingerprint where the table holds the file.
    pub fn to(&self, path: &str) -> (url: String)
        ensures
            url@ == url_for(self.prefix(), self.table(), path@),
    {
        let length = path.unicode_len();
        let key = if length == 0 {
            path
        } else {
            path.substring_char(1, length)
        };
        let mut url = self.config.path_prefix.clone();
        url.append(path);
        match current_fingerprint(self.hashes, key) {
            Some(fingerprint) => {
                url.append("?v=");
                url.append(fingerprint);
            },
            None => {},
        }
        url
    }
}

/// A directive of a `Cache-Control` header.
#[derive(Debug, Clone, Copy, PartialEq, Eq, Structural)]
pub enum CacheDirective {
    /// The response may be kept for this many seconds.
    MaxAge(u32),
}

/// A file to answer with, and the headers to send with it.
#[derive(Debug, PartialEq, Eq)]
pub struct FileResponse {
    /// The canonical path of the file, as components.
    pub path: Vec<String>,
    /// The content type.
    pub content_type: String,
    /// The directives of the `Cache-Control` header; none where the response
    /// is not to be kept.
    pub cache_control: Vec<CacheDirective>,
}

/// A file response as plain values.
pub struct FileModel {
    pub path: Seq<Seq<char>>,
    pub content_type: Seq<char>,
    pub cache_control: Seq<CacheDirective>,
}

impl View for FileResponse {
    type V = FileModel;

    open spec fn view(&self) -> FileModel {
        FileModel {
            path: texts(self.path@),
            content_type: self.content_type@,
            cache_control: self.cache_control@,
        }
    }
}

/// The directives for a file that may be kept, one year long, or must not be.
pub open spec fn directives(cache: bool) -> Seq<CacheDirective> {
    if cache {
        seq![CacheDirective::MaxAge(31536000)]
    } else {
        Seq::empty()
    }
}

/// The response that serves the file at `path`.
pub open spec fn file_model(path: Seq<Seq<char>>, cache: bool) -> FileModel {
    FileModel { path, content_type: content_type_of(path), cache_control: directives(cache) }
}

impl FileResponse {
    /// The response that serves the file at `path`, to be kept by the client
    /// for a year if `cache` is set and not at all otherwise.
    pub fn new(path: Vec<String>, cache: bool) -> (response: FileResponse)
        ensures
            response@ == file_model(texts(path@), cache),
    {
        let content_type = content_type(&path);
        FileResponse { path, content_type, cache_control: Self::cache_control(cache) }
    }

    /// The `Cache-Control` directives of a response.
    pub fn cache_control(cache: bool) -> (list: Vec<CacheDirective>)
        ensures
            list@ == directives(cache),
    {
        let mut list: Vec<CacheDirective> = Vec::new();
        if cache {
            list.push(CacheDirective::MaxAge(31536000));
        }
        assert(list@ =~= directives(cache));
        list
    }
}

/// The answer to a request that is not turned down.
#[derive(Debug, PartialEq, Eq)]
pub enum RedirectOrFile {
    /// A redirect to this URL.
    Redirect(String),
    /// A file.
    File(FileResponse),
}

/// An answer as plain values.
pub enum AnswerModel {
    Redirect(Seq<char>),
    File(FileModel),
}

impl View for RedirectOrFile {
    type V = AnswerModel;

    open spec fn view(&self) -> AnswerModel {
        match self {
            RedirectOrFile::Redirect(url) => AnswerModel::Redirect(url@),
            RedirectOrFile::File(file) => AnswerModel::File(file@),
        }
    }
}

/// The answer to a request. `path` holds the segments of the requested
/// path below the mount point, absent where they are not valid text;
/// `claimed` is the fingerprint in the query; `target` the outcome of
/// resolving the path under `root` to a canonical path. The path is looked
/// up as text with forward slashes; in a redirect its segments and the
/// current fingerprint stand percent-encoded.
pub open spec fn answer(
    path: Option<Seq<Seq<char>>>,
    claimed: Option<Seq<char>>,
    target: Result<Seq<Seq<char>>, IoFailure>,
    root: Seq<Seq<char>>,
    prefix: Seq<char>,
    table: Map<Seq<char>, Seq<char>>,
) -> Result<AnswerModel, Error> {
    match (path, target) {
        (None, _) => Err(Error::Utf8),
        (Some(_), Err(failure)) => Err(Error::Io { failure }),
        (Some(segments), Ok(file)) => {
            let text = joined(segments);
            if !root.is_prefix_of(file) {
                Err(Error::OutOfBounds)
            } else if !table.contains_key(text) {
                Ok(AnswerModel::File(file_model(file, false)))
            } else if claimed == Some(table[text]) {
                Ok(AnswerModel::File(file_model(file, true)))
            } else {
                Ok(
                    AnswerModel::Redirect(
                        canonical_url(
                            prefix,
                            encoded_segments(segments),
                            percent_encoded(table[text]),
                        ),
                    ),
                )
            }
        },
    }
}

/// The status of an answer: that of its error, 302 for a redirect, 200 for a
/// file.
pub open spec fn status_of(outcome: Result<AnswerModel, Error>) -> Status {
    match outcome {
        Ok(AnswerModel::File(_)) => Status::Success,
        Ok(AnswerModel::Redirect(_)) => Status::Found,
        Err(error) => error.status(),
    }
}

/// An outcome as plain values.
pub open spec fn outcome_model(response: Result<RedirectOrFile, Error>) -> Result<
    AnswerModel,
    Error,
> {
    match response {
        Ok(found) => Ok(found@),
        Err(error) => Err(error),
    }
}

/// The status with which an outcome is sent.
pub fn status(response: &Result<RedirectOrFile, Error>) -> (status: Status)
    ensures
        status == status_of(outcome_model(*response)),
{
    match response {
        Ok(RedirectOrFile::File(_)) => Status::Success,
        Ok(RedirectOrFile::Redirect(_)) => Status::Found,
        Err(error) => error.respond_to(),
    }
}

/// The text of an optional string.
pub open spec fn text_of(string: Option<&str>) -> Option<Seq<char>> {
    match string {
        Some(text) => Some(text@),
        None => None,
    }
}

/// The segments of a requested path.
pub open spec fn request_of(segments: Option<&Vec<String>>) -> Option<Seq<Seq<char>>> {
    match segments {
        Some(list) => Some(texts(list@)),
        None => None,
    }
}

/// The components of a resolved path.
pub open spec fn components_of(target: Result<Vec<String>, IoFailure>) -> Result<
    Seq<Seq<char>>,
    IoFailure,
> {
    match target {
        Ok(path) => Ok(texts(path@)),
        Err(failure) => Err(failure),
    }
}

/// The text under which a requested path is looked up, or the error for a
/// path that is not valid text. This is the first step of answering a
/// request: a path that is not text is turned down before any file is
/// looked for.
pub fn request_text(path: Option<&Vec<String>>) -> (text: Result<String, Error>)
    ensures
        match path {
            Some(segments) => text matches Ok(found) && found@ == joined(texts(segments@)),
            None => text == Err::<String, Error>(Error::Utf8),
        },
{
    match path {
        Some(segments) => Ok(join(segments)),
        None => Err(Error::Utf8),
    }
}

/// Answers a request for `path` with the claimed fingerprint `v`. `path`
/// holds the segments of the requested path below the mount point, and is
/// absent where they are not valid text. The caller has joined the path onto
/// the served directory and resolved it to a canonical path; `target` is how
/// that went. Where neither the path nor the current fingerprint needs
/// encoding, a redirect goes to the URL that `to` gives for the path.
pub fn serve_static(
    path: Option<&Vec<String>>,
    v: Option<&str>,
    target: Result<Vec<String>, IoFailure>,
    static_files: &StaticFiles,
) -> (response: Result<RedirectOrFile, Error>)
    ensures
        outcome_model(response) == answer(
            request_of(path),
            text_of(v),
            components_of(target),
            static_files.root(),
            static_files.prefix(),
            static_files.table(),
        ),
        response matches Ok(RedirectOrFile::Redirect(url)) ==> (path matches Some(segments)
            ==> (all_plain(texts(segments@)) && is_plain(
            static_files.table()[joined(texts(segments@))],
        ) ==> url@ == url_for(
            static_files.prefix(),
            static_files.table(),
            "/"@ + joined(texts(segments@)),
        ))),
{
    let segments = match path {
        Some(segments) => segments,
        None => {
            return Err(Error::Utf8);
        },
    };
    let text = join(segments);
    let file = match target {
        Ok(file) => file,
        Err(failure) => {
            return Err(Error::Io { failure });
        },
    };
    if !starts_with(&file, &static_files.config.serve_from) {
        return Err(Error::OutOfBounds);
    }
    let current = match current_fingerprint(static_files.hashes, text.as_str()) {
        Some(current) => current,
        None => {
            return Ok(RedirectOrFile::File(FileResponse::new(file, false)));
        },
    };
    let matches = match v {
        Some(expected) => same_text(expected, current),
        None => false,
    };
    if matches {
        Ok(RedirectOrFile::File(FileResponse::new(file, true)))
    } else {
        let encoded = encode_segments(segments);
        let fingerprint = percent_encode(current);
        let url = redirect_url(
            static_files.config.path_prefix.as_str(),
            &encoded,
            fingerprint.as_str(),
        );
        proof {
            lemma_plain_redirect_is_the_page_url(
                texts(segments@),
                static_files.prefix(),
                static_files.table(),
            );
        }
        Ok(RedirectOrFile::Redirect(url))
    }
}

/// A request that claims the current fingerprint of a file under the served
/// directory is answered with the file, to be kept for a year.
pub proof fn lemma_current_fingerprint_is_kept(
    segments: Seq<Seq<char>>,
    file: Seq<Seq<char>>,
    root: Seq<Seq<char>>,
    prefix: Seq<char>,
    table: Map<Seq<char>, Seq<char>>,
)
    requires
        root.is_prefix_of(file),
        table.contains_key(joined(segments)),
    ensures
        answer(Some(segments), Some(table[joined(segments)]), Ok(file), root, prefix, table)
            == Ok::<AnswerModel, Error>(AnswerModel::File(file_model(file, true))),
        file_model(file, true).cache_control == seq![CacheDirective::MaxAge(31536000)],
{
}

/// A request that claims another fingerprint than the current one, or none,
/// is redirected to the URL made of the mount prefix, the encoded segments
/// and the encoded current fingerprint. A redirect has no caching
/// directives.
pub proof fn lemma_other_fingerprint_is_redirected(
    segments: Seq<Seq<char>>,
    claimed: Option<Seq<char>>,
    file: Seq<Seq<char>>,
    root: Seq<Seq<char>>,
    prefix: Seq<char>,
    table: Map<Seq<char>, Seq<char>>,
)
    requires
        root.is_prefix_of(file),
        table.contains_key(joined(segments)),
        claimed != Some(table[joined(segments)]),
    ensures
        answer(Some(segments), claimed, Ok(file), root, prefix, table) == Ok::<AnswerModel, Error>(
            AnswerModel::Redirect(
                canonical_url(
                    prefix,
                    encoded_segments(segments),
                    percent_encoded(table[joined(segments)]),
                ),
            ),
        ),
        canonical_url(prefix, encoded_segments(segments), percent_encoded(table[joined(segments)]))
            == prefix + "/"@ + joined(encoded_segments(segments)) + "?v="@ + percent_encoded(
            table[joined(segments)],
        ),
{
    let url = canonical_url(
        prefix,
        encoded_segments(segments),
        percent_encoded(table[joined(segments)]),
    );
    assert(url =~= prefix + "/"@ + joined(encoded_segments(segments)) + "?v="@ + percent_encoded(
        table[joined(segments)],
    ));
}

/// Where the segments and the current fingerprint come out of the encoding
/// as they went in, the redirect URL is the path with the fingerprint as
/// its query: the URL that `to` gives for the path.
pub proof fn lemma_plain_redirect_is_the_page_url(
    segments: Seq<Seq<char>>,
    prefix: Seq<char>,
    table: Map<Seq<char>, Seq<char>>,
)
    ensures
        table.contains_key(joined(segments)) && encoded_segments(segments) == segments
            && percent_encoded(table[joined(segments)]) == table[joined(segments)]
            ==> canonical_url(
            prefix,
            encoded_segments(segments),
            percent_encoded(table[joined(segments)]),
        ) == url_for(prefix, table, "/"@ + joined(segments)) && url_for(
            prefix,
            table,
            "/"@ + joined(segments),
        ) == prefix + "/"@ + joined(segments) + "?v="@ + table[joined(segments)],
{
    reveal_strlit("/");
    let text = joined(segments);
    if table.contains_key(text) {
        assert(lookup_key("/"@ + text) =~= text);
        let url = canonical_url(prefix, segments, table[text]);
        assert(url =~= url_for(prefix, table, "/"@ + text));
        assert(url =~= prefix + "/"@ + text + "?v="@ + table[text]);
    }
}

/// A path that resolves to a place outside the served directory is answered
/// like a file that does not exist: with the status for a missing file.
pub proof fn lemma_outside_is_like_missing(
    segments: Seq<Seq<char>>,
    claimed: Option<Seq<char>>,
    file: Seq<Seq<char>>,
    root: Seq<Seq<char>>,
    prefix: Seq<char>,
    table: Map<Seq<char>, Seq<char>>,
)
    requires
        !root.is_prefix_of(file),
    ensures
        answer(Some(segments), claimed, Ok(file), root, prefix, table) is Err,
        status_of(answer(Some(segments), claimed, Ok(file), root, prefix, table)) == status_of(
            answer(Some(segments), claimed, Err(IoFailure::NotFound), root, prefix, table),
        ),
        status_of(answer(Some(segments), claimed, Ok(file), root, prefix, table))
            == Status::NotFound,
{
}

/// A file under the served directory that the table does not hold is
/// served without caching directives, whatever fingerprint is claimed.
pub proof fn lemma_untracked_is_not_kept(
    segments: Seq<Seq<char>>,
    claimed: Option<Seq<char>>,
    file: Seq<Seq<char>>,
    root: Seq<Seq<char>>,
    prefix: Seq<char>,
    table: Map<Seq<char>, Seq<char>>,
)
    requires
        root.is_prefix_of(file),
        !table.contains_key(joined(segments)),
    ensures
        answer(Some(segments), claimed, Ok(file), root, prefix, table) == Ok::<AnswerModel, Error>(
            AnswerModel::File(file_model(file, false)),
        ),
        file_model(file, false).cache_control.len() == 0,
{
}

/// Every URL for a page starts with the mount prefix and goes on with the
/// path.
pub proof fn lemma_url_starts_with_prefix(
    prefix: Seq<char>,
    table: Map<Seq<char>, Seq<char>>,
    path: Seq<char>,
)
    ensures
        (prefix + path).is_prefix_of(url_for(prefix, table, path)),
{
    if table.contains_key(lookup_key(path)) {
        let url = prefix + path + query_of(table[lookup_key(path)]);
        assert(url.subrange(0, (prefix + path).len() as int) =~= prefix + path);
    } else {
        assert((prefix + path).subrange(0, (prefix + path).len() as int) =~= prefix + path);
    }
}

/// Whatever is served lies under the served directory.
pub proof fn lemma_served_files_are_inside(
    path: Option<Seq<Seq<char>>>,
    claimed: Option<Seq<char>>,
    target: Result<Seq<Seq<char>>, IoFailure>,
    root: Seq<Seq<char>>,
    prefix: Seq<char>,
    table: Map<Seq<char>, Seq<char>>,
)
    ensures
        answer(path, claimed, target, root, prefix, table) matches Ok(AnswerModel::File(file))
            ==> root.is_prefix_of(file.path),
{
}

} // verus!
