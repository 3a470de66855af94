//! Serving an index: routing, freshness and conditional requests, with no framework in sight.
//!
//! A served document gets an expiry with every response. Time is quantised to the time a
//! document stays believable, so that every response inside one window is the same, which is
//! what makes a validator over the body meaningful, and a client refetches at least once per
//! window rather than riding a `304` past expiry.

use crate::clock;
use crate::clock::{at_second, reads_as, time_after, time_text, writable};
use crate::index::{
    disbelief, document_fault, no_catalog, no_catalog_fault, staleness, usable_name, validate_name,
    Catalog, DirectoryIndex, Freshness, IndexError, IndexFault, PluginReleases, INDEX_SCHEMA,
};
use crate::lock::{is_sha256, is_sha256_hex};
use crate::path;
use crate::signature::{opt_str, sha256, sha256_of};
use crate::text;
use vstd::prelude::*;
use vstd::string::*;

verus! {

/// URL prefix under which packages are served, relative to the index base.
pub const BLOBS_PREFIX: &'static str = "v1/blobs/";

/// Directory holding packages on disk, relative to a [`DirectorySource`] base.
pub const BLOBS_SUBDIR: &'static str = "blobs";

/// Media type of a plugin package.
pub const PACKAGE_MEDIA_TYPE: &'static str = "application/vnd.stanchion.plugin.v1.tar+gzip";

/// A span of time.
#[derive(Debug, Clone, Copy, PartialEq, Eq, Structural)]
pub struct Ttl {
    pub secs: u64,
    pub nanos: u32,
}

/// How long a served document stays believable, unless configured otherwise.
pub const DEFAULT_TTL_SECS: u64 = 3600;

/// The shortest span that is served.
pub const SHORTEST_TTL_SECS: u64 = 60;

/// The longest span that is served.
pub const LONGEST_TTL_SECS: u64 = 86_400;

/// A span put between the shortest and the longest that is served.
pub open spec fn clamped(ttl: Ttl) -> Ttl {
    if ttl.secs < SHORTEST_TTL_SECS {
        Ttl { secs: SHORTEST_TTL_SECS, nanos: 0 }
    } else if ttl.secs >= LONGEST_TTL_SECS {
        Ttl { secs: LONGEST_TTL_SECS, nanos: 0 }
    } else {
        ttl
    }
}

/// A package, ready to be streamed.
#[derive(Debug, PartialEq, Eq)]
pub struct Blob<R> {
    /// The archive's bytes, read on demand.
    pub reader: R,
    /// Length, where the source knows it.
    pub len: Option<u64>,
}

impl<R> Blob<R> {
    /// A package read from anywhere, with a length if it is known.
    pub fn from_reader(reader: R, len: Option<u64>) -> (r: Blob<R>)
        ensures
            r.reader == reader,
            r.len == len,
    {
        Blob { reader, len }
    }
}

impl Blob<Vec<u8>> {
    /// A package that is already in memory.
    pub fn from_bytes(bytes: Vec<u8>) -> (r: Self)
        ensures
            r.reader == bytes,
            r.len == Some(bytes@.len() as u64),
    {
        let len: u64 = bytes.len() as u64;
        Blob { reader: bytes, len: Some(len) }
    }
}

/// Whatever a server answers requests from.
pub trait IndexSource {
    /// What a package is read from.
    type Reader;

    /// Whether the releases of a plugin may be answered so: any answer may come where a source
    /// does not say more.
    open spec fn publishes(&self, name: &str, r: Result<PluginReleases, IndexError>) -> bool {
        true
    }

    /// Whether the catalog may be answered so.
    open spec fn lists(&self, r: Result<Catalog, IndexError>) -> bool {
        true
    }

    /// Whether a digest may be answered so.
    open spec fn keeps(&self, digest: &str, r: Result<Blob<Self::Reader>, IndexError>) -> bool {
        true
    }

    /// The releases of one plugin. The name has already been validated.
    fn releases(&self, name: &str) -> (r: Result<PluginReleases, IndexError>)
        ensures
            self.publishes(name, r),
    ;

    /// The catalog, if this source can enumerate. One that cannot says
    /// [`IndexError::UnknownPlugin`].
    fn catalog(&self) -> (r: Result<Catalog, IndexError>)
        ensures
            self.lists(r) || (r matches Err(error) && error@ == no_catalog_fault()),
        default_ensures
            r matches Err(error) && error@ == no_catalog_fault(),
    {
        Err(no_catalog())
    }

    /// One package, by its `sha256:<hex>` digest: the digest of the unpacked directory, not
    /// of these bytes.
    fn blob(&self, digest: &str) -> (r: Result<Blob<Self::Reader>, IndexError>)
        ensures
            self.keeps(digest, r),
    ;
}

/// Whether a source may answer so when asked for its catalog: as it says, or that it has none.
pub open spec fn may_list<S: IndexSource>(source: S, r: Result<Catalog, IndexError>) -> bool {
    source.lists(r) || (r matches Err(error) && error@ == no_catalog_fault())
}

/// The body of a response.
#[derive(Debug, PartialEq, Eq)]
pub enum Body<R> {
    /// None, as for `304` and for `HEAD`.
    Empty,
    /// A document.
    Bytes(Vec<u8>),
    /// A package, still to be read.
    Package(R),
}

/// What a body is, apart from how it is stored.
pub enum BodyModel<R> {
    Empty,
    Bytes(Seq<u8>),
    Package(R),
}

impl<R> View for Body<R> {
    type V = BodyModel<R>;

    open spec fn view(&self) -> BodyModel<R> {
        match *self {
            Body::Empty => BodyModel::Empty,
            Body::Bytes(bytes) => BodyModel::Bytes(bytes@),
            Body::Package(reader) => BodyModel::Package(reader),
        }
    }
}

impl<R> Body<R> {
    /// Whether there is nothing to send.
    pub fn is_empty(&self) -> (r: bool)
        ensures
            r == match self@ {
                BodyModel::Empty => true,
                BodyModel::Bytes(bytes) => bytes.len() == 0,
                BodyModel::Package(_) => false,
            },
    {
        match self {
            Body::Empty => true,
            Body::Bytes(bytes) => bytes.len() == 0,
            Body::Package(_) => false,
        }
    }
}

/// A response, ready for any framework to translate.
#[derive(Debug, PartialEq, Eq)]
pub struct Served<R> {
    /// Status to answer with.
    pub status: u16,
    /// `Content-Type` of the body.
    pub content_type: String,
    /// `Cache-Control`, already agreeing with the document's `expires`.
    pub cache_control: String,
    /// Strong `ETag`, quoted, or `None` where one is meaningless.
    pub etag: Option<String>,
    /// Length of the body, where it is known without reading it.
    pub content_length: Option<u64>,
    /// The body. Empty for `304` and for `HEAD`.
    pub body: Body<R>,
}

/// What a response is, apart from how it is stored.
pub struct Reply<R> {
    pub status: u16,
    pub content_type: Seq<char>,
    pub cache_control: Seq<char>,
    pub etag: Option<Seq<char>>,
    pub content_length: Option<u64>,
    pub body: BodyModel<R>,
}

impl<R> View for Served<R> {
    type V = Reply<R>;

    open spec fn view(&self) -> Reply<R> {
        Reply {
            status: self.status,
            content_type: self.content_type@,
            cache_control: self.cache_control@,
            etag: text::opt(self.etag),
            content_length: self.content_length,
            body: self.body@,
        }
    }
}

/// The JSON text that `serde_json::to_string` gives a string.
pub uninterp spec fn json_text(raw: Seq<char>) -> Seq<char>;

/// Calls `serde_json::to_string` on a string. Claimed: the result is a function of the
/// string.
#[verifier::external_body]
fn json_string(raw: &str) -> (r: String)
    ensures
        r@ == json_text(raw@),
{
    serde_json::to_string(raw).unwrap_or_default()
}

/// The body of an error, in the index's own shape.
pub open spec fn error_body(message: Seq<char>) -> Seq<u8> {
    vstd::utf8::encode_utf8("{\"error\":"@ + json_text(message) + "}"@)
}

/// An error response.
pub open spec fn error_reply<R>(status: u16, message: Seq<char>) -> Reply<R> {
    Reply {
        status,
        content_type: "application/json"@,
        cache_control: "no-store"@,
        etag: None,
        content_length: Some(error_body(message).len() as u64),
        body: BodyModel::Bytes(error_body(message)),
    }
}

/// The bytes of a text.
fn bytes_of(text: &str) -> (r: Vec<u8>)
    ensures
        r@ == vstd::utf8::encode_utf8(text@),
{
    let bytes = text.as_bytes();
    let n: usize = bytes.len();
    let mut out: Vec<u8> = Vec::new();
    let mut i: usize = 0;
    while i < n
        invariant
            n == bytes@.len(),
            i <= n,
            out@ =~= bytes@.subrange(0, i as int),
        decreases n - i,
    {
        out.push(bytes[i]);
        i = i + 1;
    }
    proof {
        assert(out@ =~= bytes@);
    }
    out
}

impl<R> Served<R> {
    /// A response in JSON that no one keeps.
    pub fn json(status: u16, body: Vec<u8>) -> (r: Served<R>)
        ensures
            r@ == (Reply::<R> {
                status,
                content_type: "application/json"@,
                cache_control: "no-store"@,
                etag: None,
                content_length: Some(body@.len() as u64),
                body: BodyModel::Bytes(body@),
            }),
    {
        Served {
            status,
            content_type: "application/json".to_owned(),
            cache_control: "no-store".to_owned(),
            etag: None,
            content_length: Some(body.len() as u64),
            body: Body::Bytes(body),
        }
    }

    /// An error in the index's own shape, so a client sees one format throughout.
    pub fn error(status: u16, message: &str) -> (r: Served<R>)
        ensures
            r@ == error_reply::<R>(status, message@),
    {
        Served::json(status, error_document(json_string(message).as_str()))
    }
}

/// The body of an error, in the index's own shape, given its message as JSON.
pub fn error_document(quoted: &str) -> (r: Vec<u8>)
    ensures
        r@ == vstd::utf8::encode_utf8("{\"error\":"@ + quoted@ + "}"@),
{
    let mut out = "{\"error\":".to_owned();
    out.append(quoted);
    out.append("}");
    bytes_of(out.as_str())
}

/// The status for a source's failure: that of an unknown plugin is `404` and nothing else is,
/// because a client takes `404` for "no such plugin" and every other for "unreachable".
pub open spec fn status_for(fault: IndexFault) -> u16 {
    match fault {
        IndexFault::UnknownPlugin(_) => 404,
        IndexFault::Malformed(_) => 400,
        _ => 500,
    }
}

/// The response to a source's failure.
pub fn error_for<R>(error: &IndexError) -> (r: Served<R>)
    ensures
        r@ == error_reply::<R>(status_for(error@), error@.message()),
{
    let status: u16 = match error {
        IndexError::UnknownPlugin(_) => 404,
        IndexError::Malformed(_) => 400,
        _ => 500,
    };
    Served::error(status, error.to_string().as_str())
}

/// The name in `v1/plugins/<name>.json`.
pub open spec fn plugin_in(route: Seq<char>) -> Option<Seq<char>> {
    match text::after(route, "v1/plugins/"@) {
        Some(rest) => text::without_suffix(rest, ".json"@),
        None => None,
    }
}

/// The name in `v1/plugins/<name>.json`.
pub fn plugin_of(route: &str) -> (r: Option<String>)
    ensures
        text::opt(r) == plugin_in(route@),
{
    match text::strip_prefix(route, "v1/plugins/") {
        Some(rest) => text::strip_suffix(rest.as_str(), ".json"),
        None => None,
    }
}

/// A path without the slashes it begins with.
pub open spec fn unslashed(path: Seq<char>) -> Seq<char>
    decreases path.len(),
{
    if path.len() > 0 && path[0] == '/' {
        unslashed(path.subrange(1, path.len() as int))
    } else {
        path
    }
}

fn strip_slashes(path: &str) -> (r: String)
    ensures
        r@ == unslashed(path@),
{
    let chars = text::chars_of(path);
    let n: usize = chars.len();
    let mut from: usize = 0;
    proof {
        assert(path@.subrange(0, n as int) =~= path@);
    }
    while from < n && chars[from] == '/'
        invariant
            chars@ == path@,
            n == chars.len(),
            from <= n,
            unslashed(path@) == unslashed(path@.subrange(from as int, n as int)),
        decreases n - from,
    {
        proof {
            let here = path@.subrange(from as int, n as int);
            assert(here.subrange(1, here.len() as int) =~= path@.subrange(from + 1, n as int));
        }
        from = from + 1;
    }
    text::text_of(&chars, from, n)
}

/// What a request asks for.
pub enum Asked {
    /// A method that is not served.
    Method,
    Catalog,
    Blob(Seq<char>),
    Releases(Seq<char>),
    /// The releases of a name that is not usable.
    Name,
    /// Nothing that an index has.
    Nothing,
}

/// What a request asks for.
#[derive(Debug, PartialEq, Eq)]
pub enum Route {
    Method,
    Catalog,
    Blob(String),
    Releases(String),
    Name,
    Nothing,
}

impl View for Route {
    type V = Asked;

    open spec fn view(&self) -> Asked {
        match *self {
            Route::Method => Asked::Method,
            Route::Catalog => Asked::Catalog,
            Route::Blob(digest) => Asked::Blob(digest@),
            Route::Releases(name) => Asked::Releases(name@),
            Route::Name => Asked::Name,
            Route::Nothing => Asked::Nothing,
        }
    }
}

/// What a request asks for: a path may begin with slashes or not.
pub open spec fn asked(method: Seq<char>, path: Seq<char>) -> Asked {
    let route = unslashed(path);
    if method != "GET"@ && method != "HEAD"@ {
        Asked::Method
    } else if route == "v1/index.json"@ {
        Asked::Catalog
    } else {
        match text::after(route, "v1/blobs/"@) {
            Some(digest) => Asked::Blob(digest),
            None => match plugin_in(route) {
                Some(name) => if usable_name(name) {
                    Asked::Releases(name)
                } else {
                    Asked::Name
                },
                None => Asked::Nothing,
            },
        }
    }
}

/// What a request asks for.
pub fn route(method: &str, path: &str) -> (r: Route)
    ensures
        r@ == asked(method@, path@),
{
    if !text::same(method, "GET") && !text::same(method, "HEAD") {
        return Route::Method;
    }
    let route = strip_slashes(path);
    if text::same(route.as_str(), "v1/index.json") {
        return Route::Catalog;
    }
    match text::strip_prefix(route.as_str(), "v1/blobs/") {
        Some(digest) => Route::Blob(digest),
        None => match plugin_of(route.as_str()) {
            // The name came off a URL, so it is checked before it reaches a source.
            Some(name) => match validate_name(name.as_str()) {
                Ok(_) => Route::Releases(name),
                Err(_) => Route::Name,
            },
            None => Route::Nothing,
        },
    }
}

/// A validator without the marks of weakness before it.
pub open spec fn strong(validator: Seq<char>) -> Seq<char>
    decreases validator.len(),
{
    match text::after(validator, "W/"@) {
        Some(rest) => if "W/"@.len() > 0 {
            strong(rest)
        } else {
            validator
        },
        None => validator,
    }
}

fn without_weakness(validator: &str) -> (r: String)
    ensures
        r@ == strong(validator@),
{
    let mut out = validator.to_owned();
    loop
        invariant
            strong(out@) == strong(validator@),
        ensures
            out@ == strong(validator@),
        decreases out@.len(),
    {
        proof {
            reveal_strlit("W/");
        }
        match text::strip_prefix(out.as_str(), "W/") {
            Some(rest) => {
                out = rest;
            },
            None => {
                break;
            },
        }
    }
    out
}

/// Whether a list of validators names one.
pub open spec fn names_validator(candidates: Seq<char>, etag: Seq<char>) -> bool {
    candidates == "*"@ || exists|i: int|
        0 <= i < text::pieces(candidates, ',').len() && strong(
            text::trimmed(#[trigger] text::pieces(candidates, ',')[i]),
        ) == etag
}

/// A response with a matching validator turned into a `304`, which keeps its headers.
pub open spec fn conditional<R>(reply: Reply<R>, if_none_match: Option<Seq<char>>) -> Reply<R> {
    match (reply.etag, if_none_match) {
        (Some(etag), Some(candidates)) => if 200 <= reply.status < 300 && names_validator(
            candidates,
            etag,
        ) {
            Reply { status: 304, body: BodyModel::Empty, ..reply }
        } else {
            reply
        },
        _ => reply,
    }
}

fn matches_validator(candidates: &str, etag: &str) -> (r: bool)
    ensures
        r == names_validator(candidates@, etag@),
{
    if text::same(candidates, "*") {
        return true;
    }
    let list = text::split(candidates, ',');
    let ghost all = text::pieces(candidates@, ',');
    let n: usize = list.len();
    let mut i: usize = 0;
    while i < n
        invariant
            n == list.len(),
            i <= n,
            all == text::texts(list@),
            all == text::pieces(candidates@, ','),
            candidates@ != "*"@,
            forall|j: int| 0 <= j < i ==> strong(text::trimmed(#[trigger] all[j])) != etag@,
        decreases n - i,
    {
        let candidate = text::trim(list[i].as_str());
        proof {
            assert(all[i as int] == list@[i as int]@);
        }
        if text::same(without_weakness(candidate.as_str()).as_str(), etag) {
            return true;
        }
        i = i + 1;
    }
    false
}

/// Turns a matching `If-None-Match` into a `304`.
pub fn apply_conditional<R>(served: Served<R>, if_none_match: Option<&str>) -> (r: Served<R>)
    ensures
        r@ == conditional(served@, opt_str(if_none_match)),
{
    let matched = match (&served.etag, if_none_match) {
        (Some(etag), Some(candidates)) => served.status >= 200 && served.status < 300
            && matches_validator(candidates, etag.as_str()),
        _ => false,
    };
    if matched {
        Served {
            status: 304,
            content_type: served.content_type,
            cache_control: served.cache_control,
            etag: served.etag,
            content_length: served.content_length,
            body: Body::Empty,
        }
    } else {
        served
    }
}

/// A response as it is sent: `HEAD` has the headers without the body.
pub open spec fn sent<R>(reply: Reply<R>, method: Seq<char>, if_none_match: Option<Seq<char>>) -> Reply<
    R,
> {
    let answer = conditional(reply, if_none_match);
    if method == "HEAD"@ {
        Reply { body: BodyModel::Empty, ..answer }
    } else {
        answer
    }
}

/// Readies a response to be sent.
pub fn finish<R>(served: Served<R>, method: &str, if_none_match: Option<&str>) -> (r: Served<R>)
    ensures
        r@ == sent(served@, method@, opt_str(if_none_match)),
{
    let served = apply_conditional(served, if_none_match);
    if text::same(method, "HEAD") {
        Served {
            status: served.status,
            content_type: served.content_type,
            cache_control: served.cache_control,
            etag: served.etag,
            content_length: served.content_length,
            body: Body::Empty,
        }
    } else {
        served
    }
}

/// The strong validator of a body: eight bytes of its hash, quoted.
pub open spec fn validator(body: Seq<u8>) -> Seq<char> {
    "\""@ + text::hex(sha256_of(body).subrange(0, 8)) + "\""@
}

/// A strong, quoted validator over the exact bytes served.
pub fn etag_of(body: &Vec<u8>) -> (r: String)
    ensures
        r@ == validator(body@),
{
    let digest = sha256(body.as_slice());
    quote_hash(&digest)
}

/// The first eight bytes of a hash, quoted.
pub fn quote_hash(digest: &[u8; 32]) -> (r: String)
    ensures
        r@ == "\""@ + text::hex(digest@.subrange(0, 8)) + "\""@,
{
    let mut head: Vec<u8> = Vec::new();
    let mut i: usize = 0;
    while i < 8
        invariant
            i <= 8,
            head@ =~= digest@.subrange(0, i as int),
        decreases 8 - i,
    {
        head.push(digest[i]);
        i = i + 1;
    }
    let mut out = "\"".to_owned();
    out.append(text::to_hex(&head).as_str());
    out.append("\"");
    out
}

/// The start of the window that holds a second.
pub open spec fn window_start(now: i64, ttl: Ttl) -> i64 {
    let start = now as int - now as int % ttl.secs as int;
    if start < i64::MIN as int {
        i64::MIN
    } else {
        start as i64
    }
}

/// Seconds until the window that holds a second ends.
pub open spec fn window_left(now: i64, ttl: Ttl) -> int {
    ttl.secs as int - now as int % ttl.secs as int
}

/// When a document of a window was generated.
pub open spec fn window_updated(now: i64, ttl: Ttl) -> Seq<char> {
    time_text(at_second(window_start(now, ttl)))
}

/// When a document of a window stops being believable.
pub open spec fn window_expires(now: i64, ttl: Ttl) -> Seq<char> {
    time_text(time_after(window_start(now, ttl), ttl.secs, ttl.nanos))
}

/// Whether the window of a second lies in the years that a stamp can be written for.
pub open spec fn datable(now: i64, ttl: Ttl) -> bool {
    &&& writable(now as int - now as int % ttl.secs as int)
    &&& writable(now as int - now as int % ttl.secs as int + ttl.secs)
}

/// Whether an expiry is believed, by the strictest client, until the window of a second ends.
pub open spec fn lasts(expires: Option<Seq<char>>, now: i64, ttl: Ttl) -> bool {
    datable(now, ttl) ==> forall|what: Seq<char>, at: i128|
        at as int <= (now as int + window_left(now, ttl)) * 1_000_000_000 ==> #[trigger] staleness(
            Freshness::Required,
            expires,
            what,
            at,
        ) is None
}

/// When the window of a second ends, in nanoseconds since the epoch.
pub open spec fn window_end(now: i64, ttl: Ttl) -> int {
    (now as int - now as int % ttl.secs as int + ttl.secs) * 1_000_000_000 + ttl.nanos
}

/// Whether an expiry reads as the end of the window of a second.
pub open spec fn dated(expires: Option<Seq<char>>, now: i64, ttl: Ttl) -> bool {
    datable(now, ttl) ==> (expires matches Some(text) && reads_as(text, window_end(now, ttl)))
}

/// The response for a document, given how it was rendered.
pub open spec fn document_reply<R>(rendered: Option<Seq<u8>>, now: i64, ttl: Ttl) -> Reply<R> {
    match rendered {
        None => error_reply::<R>(500, "could not render"@),
        Some(body) => Reply {
            status: 200,
            content_type: "application/json"@,
            cache_control: "public, max-age="@ + text::decimal(window_left(now, ttl) as nat),
            etag: Some(validator(body)),
            content_length: Some(body.len() as u64),
            body: BodyModel::Bytes(body),
        },
    }
}

/// The view of what rendered.
pub open spec fn rendered_view(rendered: Option<Vec<u8>>) -> Option<Seq<u8>> {
    match rendered {
        Some(body) => Some(body@),
        None => None,
    }
}

/// The response for a package. A package is named by the digest of what it unpacks to, so its
/// bytes can never change under that name.
pub open spec fn blob_reply<R>(digest: Seq<char>, blob: Result<Blob<R>, IndexError>) -> Reply<R> {
    match blob {
        Ok(blob) => Reply {
            status: 200,
            content_type: "application/vnd.stanchion.plugin.v1.tar+gzip"@,
            cache_control: "public, max-age=31536000, immutable"@,
            etag: Some("\""@ + digest + "\""@),
            content_length: blob.len,
            body: BodyModel::Package(blob.reader),
        },
        Err(error) => error_reply::<R>(status_for(error@), error@.message()),
    }
}

/// The response for a package.
pub fn serve_blob<R>(digest: &str, blob: Result<Blob<R>, IndexError>) -> (r: Served<R>)
    ensures
        r@ == blob_reply(digest@, blob),
{
    match blob {
        Ok(blob) => {
            let mut etag = "\"".to_owned();
            etag.append(digest);
            etag.append("\"");
            Served {
                status: 200,
                content_type: "application/vnd.stanchion.plugin.v1.tar+gzip".to_owned(),
                cache_control: "public, max-age=31536000, immutable".to_owned(),
                etag: Some(etag),
                content_length: blob.len,
                body: Body::Package(blob.reader),
            }
        },
        Err(error) => error_for(&error),
    }
}

/// How many bytes of a package are read at once: as many as were asked for, and at least one.
pub fn chunk_size(size: usize) -> (r: usize)
    ensures
        r == if size == 0 {
            1
        } else {
            size
        },
{
    if size == 0 {
        1
    } else {
        size
    }
}

/// Serves an index from any [`IndexSource`].
#[derive(Debug)]
pub struct IndexServer<S> {
    source: S,
    ttl: Ttl,
}

impl<S> IndexServer<S> {
    #[verifier::type_invariant]
    closed spec fn valid(self) -> bool {
        &&& SHORTEST_TTL_SECS <= self.ttl.secs <= LONGEST_TTL_SECS
        &&& self.ttl.nanos < 1_000_000_000
        &&& self.ttl.secs == LONGEST_TTL_SECS ==> self.ttl.nanos == 0
    }

    pub closed spec fn origin(self) -> S {
        self.source
    }

    pub closed spec fn span(self) -> Ttl {
        self.ttl
    }

    /// Serves `source` with the default span.
    pub fn new(source: S) -> (r: IndexServer<S>)
        ensures
            r.origin() == source,
            r.span() == (Ttl { secs: DEFAULT_TTL_SECS, nanos: 0 }),
    {
        IndexServer { source, ttl: Ttl { secs: DEFAULT_TTL_SECS, nanos: 0 } }
    }

    /// Sets how long a served document stays believable. A zero or absurd span is clamped to
    /// something a client can actually use.
    pub fn ttl(self, ttl: Ttl) -> (r: IndexServer<S>)
        requires
            ttl.nanos < 1_000_000_000,
        ensures
            r.origin() == self.origin(),
            r.span() == clamped(ttl),
    {
        let kept = if ttl.secs < SHORTEST_TTL_SECS {
            Ttl { secs: SHORTEST_TTL_SECS, nanos: 0 }
        } else if ttl.secs >= LONGEST_TTL_SECS {
            Ttl { secs: LONGEST_TTL_SECS, nanos: 0 }
        } else {
            ttl
        };
        IndexServer { source: self.source, ttl: kept }
    }

    /// The configured span.
    pub fn configured_ttl(&self) -> (r: Ttl)
        ensures
            r == self.span(),
            SHORTEST_TTL_SECS <= r.secs <= LONGEST_TTL_SECS,
            r.nanos < 1_000_000_000,
            r.secs == LONGEST_TTL_SECS ==> r.nanos == 0,
    {
        proof {
            use_type_invariant(self);
        }
        self.ttl
    }

    /// The source being served.
    pub fn source(&self) -> (r: &S)
        ensures
            *r == self.origin(),
    {
        &self.source
    }

    /// The window that holds a second, as its `updated` and `expires`.
    pub fn window(&self, now: i64) -> (r: (String, String))
        ensures
            r.0@ == window_updated(now, self.span()),
            r.1@ == window_expires(now, self.span()),
            lasts(Some(r.1@), now, self.span()),
            dated(Some(r.1@), now, self.span()),
    {
        proof {
            use_type_invariant(self);
        }
        let ttl: i64 = self.ttl.secs as i64;
        let elapsed: i64 = match now.checked_rem_euclid(ttl) {
            Some(elapsed) => elapsed,
            None => 0,
        };
        let start: i64 = match now.checked_sub(elapsed) {
            Some(start) => start,
            None => i64::MIN,
        };
        let end: i128 = clock::after_second(start, self.ttl.secs, self.ttl.nanos);
        let expires = clock::format_time(end);
        proof {
            let passed = now as int % self.ttl.secs as int;
            vstd::arithmetic::div_mod::lemma_mod_bound(now as int, self.ttl.secs as int);
            if datable(now, self.span()) {
                assert(start == now - passed);
                assert((now + window_left(now, self.span())) * 1_000_000_000 == (start
                    + self.ttl.secs) * 1_000_000_000);
                assert(end as int == window_end(now, self.span()));
                assert(end as int / 1_000_000_000 == start + self.ttl.secs);
            }
        }
        (clock::format_time(clock::of_second(start)), expires)
    }

    /// Seconds until the current window ends.
    pub fn remaining(&self, now: i64) -> (r: u64)
        ensures
            r as int == window_left(now, self.span()),
            1 <= r <= self.span().secs,
    {
        proof {
            use_type_invariant(self);
        }
        let ttl: i64 = self.ttl.secs as i64;
        let elapsed: i64 = match now.checked_rem_euclid(ttl) {
            Some(elapsed) => elapsed,
            None => 0,
        };
        (ttl - elapsed) as u64
    }

    /// A catalog stamped with the window that holds a second.
    pub fn stamp_catalog(&self, catalog: Catalog, now: i64) -> (r: Catalog)
        ensures
            r.schema == INDEX_SCHEMA,
            text::opt(r.updated) == Some(window_updated(now, self.span())),
            text::opt(r.expires) == Some(window_expires(now, self.span())),
            lasts(text::opt(r.expires), now, self.span()),
            dated(text::opt(r.expires), now, self.span()),
            r.name == catalog.name,
            r.plugins == catalog.plugins,
    {
        let (updated, expires) = self.window(now);
        Catalog {
            schema: INDEX_SCHEMA,
            name: catalog.name,
            updated: Some(updated),
            expires: Some(expires),
            plugins: catalog.plugins,
        }
    }

    /// A release document stamped with the window that holds a second.
    pub fn stamp_releases(&self, releases: PluginReleases, now: i64) -> (r: PluginReleases)
        ensures
            r.schema == INDEX_SCHEMA,
            text::opt(r.updated) == Some(window_updated(now, self.span())),
            text::opt(r.expires) == Some(window_expires(now, self.span())),
            lasts(text::opt(r.expires), now, self.span()),
            dated(text::opt(r.expires), now, self.span()),
            r.name == releases.name,
            r.releases == releases.releases,
    {
        let (updated, expires) = self.window(now);
        PluginReleases {
            schema: INDEX_SCHEMA,
            name: releases.name,
            updated: Some(updated),
            expires: Some(expires),
            releases: releases.releases,
        }
    }

    /// Gives a rendered document a validator and a matching `Cache-Control`.
    pub fn document<R>(&self, rendered: Option<Vec<u8>>, now: i64) -> (r: Served<R>)
        ensures
            r@ == document_reply::<R>(rendered_view(rendered), now, self.span()),
    {
        match rendered {
            None => Served::error(500, "could not render"),
            Some(body) => {
                let mut cache_control = "public, max-age=".to_owned();
                cache_control.append(text::number(self.remaining(now)).as_str());
                Served {
                    status: 200,
                    content_type: "application/json".to_owned(),
                    cache_control,
                    etag: Some(etag_of(&body)),
                    content_length: Some(body.len() as u64),
                    body: Body::Bytes(body),
                }
            },
        }
    }
}

/// The response to a source's failure.
pub open spec fn failure_reply<R>(error: IndexError) -> Reply<R> {
    error_reply::<R>(status_for(error@), error@.message())
}

/// Whether a response is that for what a source keeps under a digest.
pub open spec fn of_blob<S: IndexSource>(
    reply: Reply<S::Reader>,
    source: S,
    digest: Seq<char>,
) -> bool {
    exists|at: &str, blob: Result<Blob<S::Reader>, IndexError>|
        at@ == digest && #[trigger] source.keeps(at, blob) && reply == blob_reply(digest, blob)
}

/// Whether a catalog is another one, stamped with the window of a second.
pub open spec fn stamped_catalog(stamped: Catalog, catalog: Catalog, now: i64, ttl: Ttl) -> bool {
    &&& stamped.schema == INDEX_SCHEMA
    &&& text::opt(stamped.updated) == Some(window_updated(now, ttl))
    &&& text::opt(stamped.expires) == Some(window_expires(now, ttl))
    &&& lasts(text::opt(stamped.expires), now, ttl)
    &&& dated(text::opt(stamped.expires), now, ttl)
    &&& stamped.name == catalog.name
    &&& stamped.plugins == catalog.plugins
}

/// Whether a release document is another one, stamped with the window of a second.
pub open spec fn stamped_releases(
    stamped: PluginReleases,
    releases: PluginReleases,
    now: i64,
    ttl: Ttl,
) -> bool {
    &&& stamped.schema == INDEX_SCHEMA
    &&& text::opt(stamped.updated) == Some(window_updated(now, ttl))
    &&& text::opt(stamped.expires) == Some(window_expires(now, ttl))
    &&& lasts(text::opt(stamped.expires), now, ttl)
    &&& dated(text::opt(stamped.expires), now, ttl)
    &&& stamped.name == releases.name
    &&& stamped.releases == releases.releases
}

/// Whether a response is that for a catalog, stamped and rendered.
pub open spec fn shows_catalog<R, C: Fn(&Catalog) -> Option<Vec<u8>>>(
    reply: Reply<R>,
    catalog: Catalog,
    render: C,
    now: i64,
    ttl: Ttl,
) -> bool {
    exists|stamped: Catalog, rendered: Option<Vec<u8>>|
        {
            &&& stamped_catalog(stamped, catalog, now, ttl)
            &&& #[trigger] call_ensures(render, (&stamped,), rendered)
            &&& reply == document_reply::<R>(rendered_view(rendered), now, ttl)
        }
}

/// Whether a response is that for a release document, stamped and rendered.
pub open spec fn shows_releases<R, D: Fn(&PluginReleases) -> Option<Vec<u8>>>(
    reply: Reply<R>,
    releases: PluginReleases,
    render: D,
    now: i64,
    ttl: Ttl,
) -> bool {
    exists|stamped: PluginReleases, rendered: Option<Vec<u8>>|
        {
            &&& stamped_releases(stamped, releases, now, ttl)
            &&& #[trigger] call_ensures(render, (&stamped,), rendered)
            &&& reply == document_reply::<R>(rendered_view(rendered), now, ttl)
        }
}

/// Whether a response is that for what a source gives as its catalog.
pub open spec fn of_catalog<S: IndexSource, C: Fn(&Catalog) -> Option<Vec<u8>>>(
    reply: Reply<S::Reader>,
    source: S,
    render: C,
    now: i64,
    ttl: Ttl,
) -> bool {
    exists|given: Result<Catalog, IndexError>| #[trigger]
        may_list(source, given) && match given {
            Err(error) => reply == failure_reply::<S::Reader>(error),
            Ok(catalog) => shows_catalog(reply, catalog, render, now, ttl),
        }
}

/// Whether a response is that for what a source gives as the releases of a plugin.
pub open spec fn of_releases<S: IndexSource, D: Fn(&PluginReleases) -> Option<Vec<u8>>>(
    reply: Reply<S::Reader>,
    source: S,
    name: Seq<char>,
    render: D,
    now: i64,
    ttl: Ttl,
) -> bool {
    exists|at: &str, given: Result<PluginReleases, IndexError>|
        at@ == name && #[trigger] source.publishes(at, given) && match given {
            Err(error) => reply == failure_reply::<S::Reader>(error),
            Ok(releases) => shows_releases(reply, releases, render, now, ttl),
        }
}

/// Whether a response answers a request at a second: exactly, where the request alone decides;
/// else as whatever the source gave calls for.
pub open spec fn answers<
    S: IndexSource,
    C: Fn(&Catalog) -> Option<Vec<u8>>,
    D: Fn(&PluginReleases) -> Option<Vec<u8>>,
>(
    answer: Reply<S::Reader>,
    source: S,
    method: Seq<char>,
    path: Seq<char>,
    if_none_match: Option<Seq<char>>,
    now: i64,
    ttl: Ttl,
    render_catalog: C,
    render_releases: D,
) -> bool {
    match asked(method, path) {
        Asked::Method => answer == error_reply::<S::Reader>(405, "only GET and HEAD"@),
        Asked::Nothing => answer == sent(
            error_reply::<S::Reader>(404, "no such index route"@),
            method,
            if_none_match,
        ),
        Asked::Name => answer == sent(
            error_reply::<S::Reader>(400, "not a usable plugin name"@),
            method,
            if_none_match,
        ),
        Asked::Blob(digest) => exists|reply: Reply<S::Reader>|
            answer == #[trigger] sent(reply, method, if_none_match) && of_blob(
                reply,
                source,
                digest,
            ),
        Asked::Catalog => exists|reply: Reply<S::Reader>|
            answer == #[trigger] sent(reply, method, if_none_match) && of_catalog(
                reply,
                source,
                render_catalog,
                now,
                ttl,
            ),
        Asked::Releases(name) => exists|reply: Reply<S::Reader>|
            answer == #[trigger] sent(reply, method, if_none_match) && of_releases(
                reply,
                source,
                name,
                render_releases,
                now,
                ttl,
            ),
    }
}

impl<S: IndexSource> IndexServer<S> {
    /// Answers one request at a second since the epoch, with documents rendered by the two
    /// functions.
    ///
    /// Anything outside the index's own routes is a `404`, so a server can mount this beside
    /// other things. What the source answers is its own: a failure becomes the response of
    /// [`error_for`], a document is stamped and rendered, and a package is passed on unread.
    pub fn serve_at<C: Fn(&Catalog) -> Option<Vec<u8>>, D: Fn(&PluginReleases) -> Option<Vec<u8>>>(
        &self,
        method: &str,
        path: &str,
        if_none_match: Option<&str>,
        now: i64,
        render_catalog: C,
        render_releases: D,
    ) -> (r: Served<S::Reader>)
        requires
            forall|catalog: Catalog| call_requires(render_catalog, (&catalog,)),
            forall|releases: PluginReleases| call_requires(render_releases, (&releases,)),
        ensures
            answers(
                r@,
                self.origin(),
                method@,
                path@,
                opt_str(if_none_match),
                now,
                self.span(),
                render_catalog,
                render_releases,
            ),
    {
        let served: Served<S::Reader> = match route(method, path) {
            Route::Method => {
                return Served::error(405, "only GET and HEAD");
            },
            Route::Nothing => Served::error(404, "no such index route"),
            Route::Name => Served::error(400, "not a usable plugin name"),
            Route::Blob(digest) => {
                let at = digest.as_str();
                let blob = self.source.blob(at);
                let ghost given = blob;
                let served = serve_blob(at, blob);
                proof {
                    assert(self.origin().keeps(at, given));
                    assert(of_blob(served@, self.origin(), digest@));
                }
                served
            },
            Route::Catalog => {
                let given = self.source.catalog();
                let ghost said = given;
                let served = match given {
                    Ok(catalog) => {
                        let ghost whole = catalog;
                        let stamped = self.stamp_catalog(catalog, now);
                        let rendered = render_catalog(&stamped);
                        let ghost shown = rendered;
                        let served = self.document(rendered, now);
                        proof {
                            assert(call_ensures(render_catalog, (&stamped,), shown));
                            assert(shows_catalog(served@, whole, render_catalog, now, self.span()));
                        }
                        served
                    },
                    Err(error) => error_for(&error),
                };
                proof {
                    assert(may_list(self.origin(), said));
                    assert(of_catalog(served@, self.origin(), render_catalog, now, self.span()));
                }
                served
            },
            Route::Releases(name) => {
                let at = name.as_str();
                let given = self.source.releases(at);
                let ghost said = given;
                let served = match given {
                    Ok(releases) => {
                        let ghost whole = releases;
                        let stamped = self.stamp_releases(releases, now);
                        let rendered = render_releases(&stamped);
                        let ghost shown = rendered;
                        let served = self.document(rendered, now);
                        proof {
                            assert(call_ensures(render_releases, (&stamped,), shown));
                            assert(shows_releases(
                                served@,
                                whole,
                                render_releases,
                                now,
                                self.span(),
                            ));
                        }
                        served
                    },
                    Err(error) => error_for(&error),
                };
                proof {
                    assert(self.origin().publishes(at, said));
                    assert(of_releases(
                        served@,
                        self.origin(),
                        name@,
                        render_releases,
                        now,
                        self.span(),
                    ));
                }
                served
            },
        };
        let ghost reply = served@;
        let done = finish(served, method, if_none_match);
        proof {
            assert(done@ == sent(reply, method@, opt_str(if_none_match)));
        }
        done
    }

    /// Answers one request now.
    pub fn serve<C: Fn(&Catalog) -> Option<Vec<u8>>, D: Fn(&PluginReleases) -> Option<Vec<u8>>>(
        &self,
        method: &str,
        path: &str,
        if_none_match: Option<&str>,
        render_catalog: C,
        render_releases: D,
    ) -> (r: Served<S::Reader>)
        requires
            forall|catalog: Catalog| call_requires(render_catalog, (&catalog,)),
            forall|releases: PluginReleases| call_requires(render_releases, (&releases,)),
        ensures
            exists|now: i64|
                #[trigger] answers(
                    r@,
                    self.origin(),
                    method@,
                    path@,
                    opt_str(if_none_match),
                    now,
                    self.span(),
                    render_catalog,
                    render_releases,
                ),
    {
        let now: i64 = clock::now_second();
        self.serve_at(method, path, if_none_match, now, render_catalog, render_releases)
    }
}

/// An index laid out on disk: the documents of a [`DirectoryIndex`] beside a directory of
/// packages. Its documents' own expiry is ignored, because the server issues a new one with
/// every response.
#[derive(Debug, PartialEq, Eq)]
pub struct DirectorySource {
    base: String,
    index: DirectoryIndex,
}

/// The file of a package, if its digest is one: `sha256:` and sixty-four hexadecimal digits,
/// and nothing else, because the digits become a file name.
pub open spec fn package_file(base: Seq<char>, digest: Seq<char>) -> Option<Seq<char>> {
    match text::after(digest, "sha256:"@) {
        Some(hex) => if is_sha256(hex) {
            Some(
                path::under(
                    path::under(path::under(base, "blobs"@), "sha256"@),
                    text::lower(hex),
                ),
            )
        } else {
            None
        },
        None => None,
    }
}

impl DirectorySource {
    pub closed spec fn dir(self) -> Seq<char> {
        self.base@
    }

    pub closed spec fn documents(self) -> DirectoryIndex {
        self.index
    }

    /// Reads the layout from `base`.
    pub fn new(base: &str) -> (r: DirectorySource)
        ensures
            r.dir() == base@,
            r.documents().dir() == base@,
            r.documents().strict() == Freshness::Ignored,
    {
        DirectorySource {
            base: base.to_owned(),
            index: DirectoryIndex::new(base).freshness(Freshness::Ignored),
        }
    }

    /// The directory being served.
    pub fn base(&self) -> (r: &str)
        ensures
            r@ == self.dir(),
    {
        self.base.as_str()
    }

    /// The documents of the index.
    pub fn index(&self) -> (r: &DirectoryIndex)
        ensures
            *r == self.documents(),
    {
        &self.index
    }

    /// On-disk path of one package.
    pub fn blob_path(&self, digest: &str) -> (r: Option<String>)
        ensures
            text::opt(r) == package_file(self.dir(), digest@),
    {
        match text::strip_prefix(digest, "sha256:") {
            None => None,
            Some(hex) => {
                if !is_sha256_hex(hex.as_str()) {
                    return None;
                }
                let blobs = path::join(self.base.as_str(), "blobs");
                let algorithm = path::join(blobs.as_str(), "sha256");
                Some(path::join(algorithm.as_str(), text::to_lower(hex.as_str()).as_str()))
            },
        }
    }

    /// The file of a package, or why there is none.
    pub fn blob_file(&self, digest: &str) -> (r: Result<String, IndexError>)
        ensures
            match package_file(self.dir(), digest@) {
                Some(file) => r matches Ok(found) && found@ == file,
                None => r matches Err(error) && error@ == IndexFault::Malformed(
                    "`"@ + digest@ + "` is not a sha256 digest"@,
                ),
            },
    {
        match self.blob_path(digest) {
            Some(file) => Ok(file),
            None => {
                let mut out = "`".to_owned();
                out.append(digest);
                out.append("` is not a sha256 digest");
                Err(IndexError::Malformed(out))
            },
        }
    }
}

/// What a server issues, a client believes: a document that is fit to be published is accepted
/// by the strictest client, under its own name, until the window it was stamped for ends.
pub proof fn issued_documents_are_believed(
    stamped: PluginReleases,
    releases: PluginReleases,
    name: Seq<char>,
    now: i64,
    ttl: Ttl,
    at: i128,
)
    requires
        stamped_releases(stamped, releases, now, ttl),
        document_fault(releases, name) is None,
        datable(now, ttl),
        at as int <= (now as int + window_left(now, ttl)) * 1_000_000_000,
    ensures
        disbelief(stamped, name, Freshness::Required, at) is None,
{
    assert(staleness(
        Freshness::Required,
        text::opt(stamped.expires),
        "the release document for `"@ + name + "`"@,
        at,
    ) is None);
}

/// A cache lets go of a document exactly when its window ends: what is left of the window and
/// what has passed of it add up to the span, so no kept response outlives its window.
pub proof fn cached_until_the_window_ends(now: i64, ttl: Ttl)
    requires
        ttl.secs > 0,
        i64::MIN <= now as int - now as int % ttl.secs as int,
    ensures
        now as int + window_left(now, ttl) == window_start(now, ttl) as int + ttl.secs as int,
        0 < window_left(now, ttl) <= ttl.secs,
        window_start(now, ttl) <= now,
{
    vstd::arithmetic::div_mod::lemma_fundamental_div_mod(now as int, ttl.secs as int);
    vstd::arithmetic::div_mod::lemma_mod_bound(now as int, ttl.secs as int);
}

/// `HEAD` has the status and headers of `GET`, and no body.
pub proof fn head_is_get_without_a_body<R>(reply: Reply<R>, if_none_match: Option<Seq<char>>)
    ensures
        sent(reply, "HEAD"@, if_none_match) == (Reply {
            body: BodyModel::Empty,
            ..sent(reply, "GET"@, if_none_match)
        }),
{
    reveal_strlit("HEAD");
    reveal_strlit("GET");
    assert("GET"@.len() != "HEAD"@.len());
}

/// A `304` comes only of a successful response whose validator the client named, and it has
/// no body: a client is never told to keep what it does not have.
pub proof fn not_modified_only_when_named<R>(reply: Reply<R>, if_none_match: Option<Seq<char>>)
    requires
        reply.status != 304,
        conditional(reply, if_none_match).status == 304,
    ensures
        200 <= reply.status < 300,
        reply.etag is Some,
        if_none_match is Some,
        names_validator(if_none_match->0, reply.etag->0),
        conditional(reply, if_none_match).body is Empty,
        conditional(reply, if_none_match).etag == reply.etag,
{
}

/// A span that was clamped is one a client can use, and clamping it again changes nothing.
pub proof fn clamping_is_stable(ttl: Ttl)
    ensures
        clamped(clamped(ttl)) == clamped(ttl),
        SHORTEST_TTL_SECS <= clamped(ttl).secs <= LONGEST_TTL_SECS,
{
}

} // verus!
