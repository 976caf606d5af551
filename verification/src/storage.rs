//! Agent file storage: backend configuration, request validation and the `<agent_id>/<filename>`
//! object layout, and the errors a storage request answers with.
//!
//! Every backend addresses an object as `<agent_id>/<filename>` where the filename is a single path
//! component, so a caller can never address an object outside its own agent's bucket. Filenames are
//! read as Unix paths: only `/` separates components and only a leading `/` is a root.

use vstd::prelude::*;
use vstd::utf8::encode_utf8;
use crate::wire::string_bytes;
use crate::paths::{component_count, count_named, extension, extension_bounds, has_root, join, path_component_count};
use crate::text::{chars_of, eq_ignore_ascii_case, range_equals, range_equals_ignore_ascii_case, string_from_chars, string_push};

verus! {

/// `file://`.
pub open spec fn file_scheme_prefix() -> Seq<char> {
    seq!['f', 'i', 'l', 'e', ':', '/', '/']
}

/// The `file:` URL `url::Url::from_directory_path` makes of the directory path `path`, or `None` when it
/// refuses the path. Which paths it refuses depends on the target: on Unix those that are not absolute
/// (do not start with `/`); on Windows those without a disk or UNC prefix.
pub uninterp spec fn directory_file_url(path: Seq<char>) -> Option<Seq<char>>;

/// A `file://` URL ending in `/`.
pub open spec fn is_directory_url(url: Seq<char>) -> bool {
    &&& url.len() >= file_scheme_prefix().len() + 1
    &&& url.take(file_scheme_prefix().len() as int) == file_scheme_prefix()
    &&& url.last() == '/'
}

/// Calls `url::Url::from_directory_path` on the path text `path` and renders the URL; the outcome is
/// named by `directory_file_url`. As the url crate's source shows on every target, a URL it makes
/// starts with `file://` (`from_file_path` starts its serialization so) and ends with `/`
/// (`from_directory_path` appends one when missing).
#[verifier::external_body]
fn url_from_directory_path(path: &str) -> (r: Result<String, ()>)
    ensures
        r is Ok <==> directory_file_url(path@) is Some,
        r matches Ok(u) ==> directory_file_url(path@) == Some(u@) && is_directory_url(u@),
{
    url::Url::from_directory_path(std::path::Path::new(path)).map(String::from)
}

/// The URL `file_url` renders `path` as: the directory URL when the url crate makes one, and `file://`
/// followed by the path text otherwise.
pub open spec fn spec_file_url(path: Seq<char>) -> Seq<char> {
    match directory_file_url(path) {
        Some(u) => u,
        None => file_scheme_prefix() + path,
    }
}

/// Render `path` as a `file://` URL.
pub fn file_url(path: &str) -> (r: String)
    ensures
        r@ == spec_file_url(path@),
        r@.take(file_scheme_prefix().len() as int) == file_scheme_prefix(),
        directory_file_url(path@) is Some ==> is_directory_url(r@),
{
    match url_from_directory_path(path) {
        Ok(url) => url,
        Err(()) => {
            let mut r = string_from_chars(&vec!['f', 'i', 'l', 'e', ':', '/', '/']);
            assert(r@ =~= file_scheme_prefix());
            let p = chars_of(path);
            let mut i: usize = 0;
            while i < p.len()
                invariant
                    i <= p.len(),
                    p@ == path@,
                    r@ == file_scheme_prefix() + p@.take(i as int),
                decreases p.len() - i,
            {
                string_push(&mut r, p[i]);
                i = i + 1;
                assert(r@ =~= file_scheme_prefix() + p@.take(i as int));
            }
            assert(p@.take(p.len() as int) =~= p@);
            assert(r@.take(7) =~= file_scheme_prefix());
            r
        },
    }
}

/// `services/ws-server/storage`, the storage folder relative to the project root.
pub open spec fn storage_subdir() -> Seq<char> {
    seq![
        's', 'e', 'r', 'v', 'i', 'c', 'e', 's', '/', 'w', 's', '-', 's', 'e', 'r', 'v', 'e', 'r', '/', 's', 't',
        'o', 'r', 'a', 'g', 'e',
    ]
}

/// `base` joined with the relative path `rel`, as `Path::join` does.
pub fn join_path(base: &str, rel: &Vec<char>) -> (r: String)
    ensures
        r@ == join(base@, rel@),
{
    let b = chars_of(base);
    let mut v: Vec<char> = Vec::new();
    let mut i: usize = 0;
    while i < b.len()
        invariant
            i <= b.len(),
            v@ == b@.take(i as int),
        decreases b.len() - i,
    {
        v.push(b[i]);
        i = i + 1;
        assert(v@ =~= b@.take(i as int));
    }
    assert(b@.take(b.len() as int) =~= b@);
    if !(b.len() == 0 || b[b.len() - 1] == '/') {
        v.push('/');
    }
    let ghost mid = v@;
    let mut k: usize = 0;
    while k < rel.len()
        invariant
            k <= rel.len(),
            v@ == mid + rel@.take(k as int),
        decreases rel.len() - k,
    {
        v.push(rel[k]);
        k = k + 1;
        assert(v@ =~= mid + rel@.take(k as int));
    }
    assert(rel@.take(rel.len() as int) =~= rel@);
    assert(v@ =~= join(base@, rel@));
    string_from_chars(&v)
}

/// The default storage directory: `services/ws-server/storage` under the project root.
pub fn default_storage_folder(project_root: &str) -> (r: String)
    ensures
        r@ == join(project_root@, storage_subdir()),
{
    let sub: Vec<char> = vec![
        's', 'e', 'r', 'v', 'i', 'c', 'e', 's', '/', 'w', 's', '-', 's', 'e', 'r', 'v', 'e', 'r', '/', 's', 't',
        'o', 'r', 'a', 'g', 'e',
    ];
    assert(sub@ =~= storage_subdir());
    join_path(project_root, &sub)
}

/// The `file://` URL of [`default_storage_folder`], the backend used when nothing is configured.
pub fn default_storage_url(project_root: &str) -> (r: String)
    ensures
        r@ == spec_file_url(join(project_root@, storage_subdir())),
        r@.take(file_scheme_prefix().len() as int) == file_scheme_prefix(),
        directory_file_url(join(project_root@, storage_subdir())) is Some ==> is_directory_url(r@),
{
    let folder = default_storage_folder(project_root);
    file_url(folder.as_str())
}

/// Storage config: the `object_store` backend URL.
pub struct StorageConfig {
    pub url: String,
}

impl StorageConfig {
    /// A config for an explicit backend URL.
    pub fn new(url: String) -> (r: StorageConfig)
        ensures
            r.url@ == url@,
    {
        StorageConfig { url }
    }

    /// A config for a local directory, given as its path text.
    pub fn local(path: &str) -> (r: StorageConfig)
        ensures
            r.url@ == spec_file_url(path@),
            r.url@.take(file_scheme_prefix().len() as int) == file_scheme_prefix(),
            directory_file_url(path@) is Some ==> is_directory_url(r.url@),
    {
        StorageConfig { url: file_url(path) }
    }
}

/// The parts of a parsed URL the backend choice reads: its scheme, the local path `to_file_path` gives
/// (when it gives one) as the path's encoded bytes, and its path text.
pub struct ParsedUrl {
    pub scheme: String,
    pub file_path: Option<Vec<u8>>,
    pub path: String,
}

/// What `url::Url::parse` makes of `text`, as (scheme, encoded bytes of the file path, path), or `None`
/// when it rejects it.
pub uninterp spec fn parsed_url(text: Seq<char>) -> Option<(Seq<char>, Option<Seq<u8>>, Seq<char>)>;

pub open spec fn parsed_view(p: ParsedUrl) -> (Seq<char>, Option<Seq<u8>>, Seq<char>) {
    (
        p.scheme@,
        match p.file_path {
            Some(f) => Some(f@),
            None => None,
        },
        p.path@,
    )
}

/// Calls `url::Url::parse` and reads the result's `scheme`, `to_file_path` (kept whole, as the path's
/// `into_encoded_bytes`) and `path`; the outcome is named by `parsed_url`. On a rejection the parser's
/// message is returned; its text is not stated.
#[verifier::external_body]
fn parse_url(text: &str) -> (r: Result<ParsedUrl, String>)
    ensures
        r is Ok <==> parsed_url(text@) is Some,
        r matches Ok(p) ==> parsed_url(text@) == Some(parsed_view(p)),
{
    match url::Url::parse(text) {
        Ok(u) => Ok(ParsedUrl {
            scheme: u.scheme().to_string(),
            file_path: u.to_file_path().ok().map(|p| p.into_os_string().into_encoded_bytes()),
            path: u.path().to_string(),
        }),
        Err(e) => Err(e.to_string()),
    }
}

/// Where a backend URL keeps its objects.
pub enum StoreLocation {
    /// A `file:` URL: the local directory keys are relative to, as the encoded bytes of an `OsStr`
    /// (the URL's file path, or the UTF-8 of its path text when it has none).
    LocalDir(Vec<u8>),
    /// Any other scheme: a backend `object_store` builds from the URL.
    Remote,
}

/// The local directory a parsed `file:` URL names, as encoded path bytes.
pub open spec fn local_dir_of(u: (Seq<char>, Option<Seq<u8>>, Seq<char>)) -> Seq<u8> {
    match u.1 {
        Some(f) => f,
        None => encode_utf8(u.2),
    }
}

/// Decide where the configured backend URL keeps objects: an unparsable URL is a `StoreUrl` error; a
/// `file` URL is a local directory; anything else is left to `object_store`.
pub fn store_location(url: &str) -> (r: Result<StoreLocation, StorageError>)
    ensures
        r is Err <==> parsed_url(url@) is None,
        r matches Err(e) ==> e is StoreUrl,
        r matches Ok(StoreLocation::LocalDir(p)) <==> (parsed_url(url@) matches Some(u) && u.0 == "file"@),
        r matches Ok(StoreLocation::LocalDir(p)) ==> p@ == local_dir_of(parsed_url(url@).unwrap()),
{
    let parsed = match parse_url(url) {
        Ok(p) => p,
        Err(message) => return Err(StorageError::StoreUrl(message)),
    };
    let scheme = chars_of(parsed.scheme.as_str());
    let file: Vec<char> = vec!['f', 'i', 'l', 'e'];
    proof {
        reveal_strlit("file");
    }
    assert(file@ =~= "file"@);
    assert(scheme@.subrange(0, scheme@.len() as int) =~= scheme@);
    if range_equals(&scheme, 0, scheme.len(), &file) {
        match parsed.file_path {
            Some(f) => Ok(StoreLocation::LocalDir(f)),
            None => Ok(StoreLocation::LocalDir(string_bytes(parsed.path.as_str()))),
        }
    } else {
        Ok(StoreLocation::Remote)
    }
}

/// What a storage request can fail with.
pub enum StorageError {
    InvalidFilename,
    AgentNotFound,
    ObjectNotFound,
    AgentRegistryPoisoned,
    /// A local I/O failure, with its message.
    Io(String),
    /// Reading the request body failed, with the message.
    Payload(String),
    /// The backend failed, with its message.
    Store(String),
    /// The backend URL did not parse, with the message.
    StoreUrl(String),
}

pub open spec fn spec_status_code(e: StorageError) -> u16 {
    match e {
        StorageError::InvalidFilename => 400,
        StorageError::AgentNotFound => 404,
        StorageError::ObjectNotFound => 404,
        _ => 500,
    }
}

impl StorageError {
    /// The HTTP status the error is answered with: 400 for a bad filename, 404 for an unknown agent or
    /// object, 500 otherwise.
    pub fn status_code(&self) -> (r: u16)
        ensures
            r == spec_status_code(*self),
    {
        match self {
            StorageError::InvalidFilename => 400,
            StorageError::AgentNotFound => 404,
            StorageError::ObjectNotFound => 404,
            _ => 500,
        }
    }

    /// The error's message (the wrapped message for the variants that carry one).
    pub fn message(&self) -> (r: String)
        ensures
            match *self {
                StorageError::InvalidFilename => r@ == "invalid filename"@,
                StorageError::AgentNotFound => r@ == "agent not found"@,
                StorageError::ObjectNotFound => r@ == "no such object"@,
                StorageError::AgentRegistryPoisoned => r@ == "agent registry lock poisoned"@,
                StorageError::Io(m) => r@ == m@,
                StorageError::Payload(m) => r@ == m@,
                StorageError::Store(m) => r@ == m@,
                StorageError::StoreUrl(m) => r@ == m@,
            },
    {
        match self {
            StorageError::InvalidFilename => String::from_str("invalid filename"),
            StorageError::AgentNotFound => String::from_str("agent not found"),
            StorageError::ObjectNotFound => String::from_str("no such object"),
            StorageError::AgentRegistryPoisoned => String::from_str("agent registry lock poisoned"),
            StorageError::Io(m) => m.clone(),
            StorageError::Payload(m) => m.clone(),
            StorageError::Store(m) => m.clone(),
            StorageError::StoreUrl(m) => m.clone(),
        }
    }
}

/// `png`, `jpg`, `jpeg`, `gif`, `webp`, `bmp`.
pub open spec fn image_extensions() -> Seq<Seq<char>> {
    seq![
        seq!['p', 'n', 'g'],
        seq!['j', 'p', 'g'],
        seq!['j', 'p', 'e', 'g'],
        seq!['g', 'i', 'f'],
        seq!['w', 'e', 'b', 'p'],
        seq!['b', 'm', 'p'],
    ]
}

/// The file's extension is one of the image extensions, compared ignoring ASCII case.
pub open spec fn spec_is_image_filename(filename: Seq<char>) -> bool {
    match extension(filename) {
        Some(ext) => exists|k: int| 0 <= k < 6 && eq_ignore_ascii_case(ext, #[trigger] image_extensions()[k]),
        None => false,
    }
}

/// Whether `filename`'s extension marks it as an image.
pub fn is_image_filename(filename: &str) -> (r: bool)
    ensures
        r == spec_is_image_filename(filename@),
{
    let v = chars_of(filename);
    let (a, b) = match extension_bounds(&v) {
        Some(ab) => ab,
        None => return false,
    };
    let known: Vec<Vec<char>> = vec![
        vec!['p', 'n', 'g'],
        vec!['j', 'p', 'g'],
        vec!['j', 'p', 'e', 'g'],
        vec!['g', 'i', 'f'],
        vec!['w', 'e', 'b', 'p'],
        vec!['b', 'm', 'p'],
    ];
    assert(known@.len() == 6);
    assert(forall|k: int| 0 <= k < 6 ==> #[trigger] known@[k]@ == image_extensions()[k]) by {
        assert(known@[0]@ =~= image_extensions()[0]);
        assert(known@[1]@ =~= image_extensions()[1]);
        assert(known@[2]@ =~= image_extensions()[2]);
        assert(known@[3]@ =~= image_extensions()[3]);
        assert(known@[4]@ =~= image_extensions()[4]);
        assert(known@[5]@ =~= image_extensions()[5]);
    }
    let ghost ext = v@.subrange(a as int, b as int);
    let mut k: usize = 0;
    while k < known.len()
        invariant
            known@.len() == 6,
            forall|m: int| 0 <= m < 6 ==> #[trigger] known@[m]@ == image_extensions()[m],
            a <= b <= v.len(),
            ext == v@.subrange(a as int, b as int),
            extension(filename@) == Some(ext),
            k <= 6,
            forall|m: int| 0 <= m < k ==> !eq_ignore_ascii_case(ext, #[trigger] image_extensions()[m]),
        decreases 6 - k,
    {
        if range_equals_ignore_ascii_case(&v, a, b, &known[k]) {
            assert(eq_ignore_ascii_case(ext, image_extensions()[k as int]));
            return true;
        }
        k = k + 1;
    }
    false
}

/// `<agent_id>/<filename>`, the object key of `filename` in `agent_id`'s bucket.
pub open spec fn spec_object_path(agent_id: Seq<char>, filename: Seq<char>) -> Seq<char> {
    agent_id + seq!['/'] + filename
}

/// The object key of `filename` inside `agent_id`'s bucket.
pub fn object_path(agent_id: &str, filename: &str) -> (r: String)
    ensures
        r@ == spec_object_path(agent_id@, filename@),
{
    let mut r = String::from_str(agent_id);
    string_push(&mut r, '/');
    r.append(filename);
    r
}

/// Validate the `{agent_id}`/`{filename}` pair of a request: the filename must be exactly one path
/// component, since a nested or absolute path would address objects outside the agent's bucket.
/// Components are read as on Unix: only `/` separates them.
pub fn agent_and_filename(agent_id: &str, filename: &str) -> (r: Result<(String, String), StorageError>)
    ensures
        component_count(filename@) == 1 <==> r is Ok,
        r matches Ok((a, f)) ==> a@ == agent_id@ && f@ == filename@,
        r matches Err(e) ==> e is InvalidFilename,
{
    let v = chars_of(filename);
    if path_component_count(&v) == 1 {
        Ok((String::from_str(agent_id), String::from_str(filename)))
    } else {
        Err(StorageError::InvalidFilename)
    }
}

/// Whether the agent a write names is connected, as the agent registry answers.
#[derive(Clone, Copy, Debug, PartialEq, Eq, Structural)]
pub enum AgentLookup {
    Registered,
    Unknown,
    /// The registry lock was poisoned.
    Poisoned,
}

/// An accepted write: where it goes, and whether the stored file is an image (and so is previewed).
pub struct PutPlan {
    pub key: String,
    pub is_image: bool,
}

/// Decide a `PUT /storage/{agent_id}/{filename}`: the filename is checked first (400), then the
/// registry (404 for an agent that is not connected).
pub fn plan_put(agent_id: &str, filename: &str, lookup: AgentLookup) -> (r: Result<PutPlan, StorageError>)
    ensures
        component_count(filename@) != 1 ==> (r matches Err(e) && e is InvalidFilename),
        component_count(filename@) == 1 ==> match lookup {
            AgentLookup::Poisoned => (r matches Err(e) && e is AgentRegistryPoisoned),
            AgentLookup::Unknown => (r matches Err(e) && e is AgentNotFound),
            AgentLookup::Registered => (r matches Ok(p) && p.key@ == spec_object_path(agent_id@, filename@)
                && p.is_image == spec_is_image_filename(filename@)),
        },
{
    let (agent, name) = agent_and_filename(agent_id, filename)?;
    match lookup {
        AgentLookup::Poisoned => Err(StorageError::AgentRegistryPoisoned),
        AgentLookup::Unknown => Err(StorageError::AgentNotFound),
        AgentLookup::Registered => {
            let key = object_path(agent.as_str(), name.as_str());
            let is_image = is_image_filename(name.as_str());
            Ok(PutPlan { key, is_image })
        },
    }
}

/// Decide a `GET` or `HEAD /storage/{agent_id}/{filename}`: the object key, or 400 for a filename that
/// is not a single component.
pub fn plan_read(agent_id: &str, filename: &str) -> (r: Result<String, StorageError>)
    ensures
        component_count(filename@) != 1 ==> (r matches Err(e) && e is InvalidFilename),
        component_count(filename@) == 1 ==> (r matches Ok(key) && key@ == spec_object_path(agent_id@, filename@)),
{
    let (agent, name) = agent_and_filename(agent_id, filename)?;
    Ok(object_path(agent.as_str(), name.as_str()))
}

/// How a backend read failed.
pub enum StoreFailure {
    NotFound,
    /// Any other backend error, with its message.
    Other(String),
}

/// The error a failed read answers with: a missing object is a 404, anything else a backend error.
pub fn read_failure(failure: StoreFailure) -> (r: StorageError)
    ensures
        match failure {
            StoreFailure::NotFound => r is ObjectNotFound,
            StoreFailure::Other(m) => (r matches StorageError::Store(m2) && m2@ == m@),
        },
{
    match failure {
        StoreFailure::NotFound => StorageError::ObjectNotFound,
        StoreFailure::Other(m) => StorageError::Store(m),
    }
}

/// A filename with two or more named parts, such as `nested/path.txt`, or an absolute one such as
/// `/etc/passwd`, is never accepted, for a write or a read, whatever the agent: it would address an
/// object outside the agent's bucket.
pub proof fn nested_or_absolute_filenames_are_refused(filename: Seq<char>)
    requires
        count_named(filename) >= 2 || (has_root(filename) && count_named(filename) >= 1),
    ensures
        component_count(filename) != 1,
{
}

} // verus!
