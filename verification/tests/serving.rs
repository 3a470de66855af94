//! The server's own behaviour: routing, freshness windows, conditional requests.

use std::sync::atomic::{AtomicUsize, Ordering};
use std::sync::Arc;

use serde_json::Value;
use stanchion::index::{
    accept_catalog, believe_releases, read_failure, Catalog, DirectoryIndex, Freshness, IndexError, PluginReleases,
    Release,
};
use stanchion::lock::is_sha256_hex;
use stanchion::server::{
    chunk_size, error_document, etag_of, quote_hash, Blob, Body, DirectorySource, IndexServer,
    IndexSource, Served, Ttl,
};
use stanchion::version::Version;
use time::format_description::well_known::Rfc3339;
use time::OffsetDateTime;

type TestResult = Result<(), Box<dyn std::error::Error>>;
type Fallible<T> = Result<T, Box<dyn std::error::Error>>;

const DIGEST: &str = "sha256:9f86d081884c7d659a2feaa0c55ad015a3bf4f1b2b0b822cd15d6c15b0f00a08";

/// An index whose stored documents carry no expiry at all: a server is expected to issue one.
struct Stored {
    source: DirectorySource,
}

impl IndexSource for Stored {
    type Reader = Vec<u8>;

    fn releases(&self, name: &str) -> Result<PluginReleases, IndexError> {
        self.source.index().releases_file(name)?;
        if name != "formatter" {
            return Err(IndexError::UnknownPlugin(name.to_string()));
        }
        let release = Release::new(Version::parse("1.4.2").unwrap(), DIGEST)
            .signed_by("repo:acme/plugins");
        Ok(PluginReleases {
            schema: 1,
            name: "formatter".to_string(),
            updated: None,
            expires: None,
            releases: vec![release],
        })
    }

    fn catalog(&self) -> Result<Catalog, IndexError> {
        Ok(Catalog {
            schema: 1,
            name: Some("acme".to_string()),
            updated: None,
            expires: None,
            plugins: vec!["formatter".to_string()],
        })
    }

    fn blob(&self, digest: &str) -> Result<Blob<Vec<u8>>, IndexError> {
        self.source.blob_file(digest)?;
        if digest != DIGEST {
            return Err(IndexError::UnknownPlugin(digest.to_string()));
        }
        Ok(Blob::from_bytes(b"package bytes".to_vec()))
    }
}

fn server() -> IndexServer<Stored> {
    IndexServer::new(Stored { source: DirectorySource::new("/srv/index") })
        .ttl(Ttl { secs: 3600, nanos: 0 })
}

fn put(map: &mut serde_json::Map<String, Value>, key: &str, value: &Option<String>) {
    if let Some(value) = value {
        map.insert(key.to_string(), Value::String(value.clone()));
    }
}

fn render_catalog(catalog: &Catalog) -> Option<Vec<u8>> {
    let mut map = serde_json::Map::new();
    map.insert("schema".to_string(), Value::from(catalog.schema));
    put(&mut map, "name", &catalog.name);
    put(&mut map, "updated", &catalog.updated);
    put(&mut map, "expires", &catalog.expires);
    let plugins = catalog.plugins.iter().cloned().map(Value::String).collect();
    map.insert("plugins".to_string(), Value::Array(plugins));
    serde_json::to_vec(&Value::Object(map)).ok()
}

fn render_releases(document: &PluginReleases) -> Option<Vec<u8>> {
    let mut map = serde_json::Map::new();
    map.insert("schema".to_string(), Value::from(document.schema));
    put(&mut map, "updated", &document.updated);
    put(&mut map, "expires", &document.expires);
    let mut releases = Vec::new();
    for release in &document.releases {
        let mut entry = serde_json::Map::new();
        entry.insert("version".to_string(), Value::String(release.version.to_string()));
        entry.insert("digest".to_string(), Value::String(release.digest.clone()));
        releases.push(Value::Object(entry));
    }
    map.insert("releases".to_string(), Value::Array(releases));
    serde_json::to_vec(&Value::Object(map)).ok()
}

fn serve<S: IndexSource>(
    server: &IndexServer<S>,
    method: &str,
    path: &str,
    if_none_match: Option<&str>,
) -> Served<S::Reader> {
    server.serve(method, path, if_none_match, render_catalog, render_releases)
}

fn serve_at(
    server: &IndexServer<Stored>,
    path: &str,
    if_none_match: Option<&str>,
    now: i64,
) -> Served<Vec<u8>> {
    server.serve_at("GET", path, if_none_match, now, render_catalog, render_releases)
}

fn bytes(body: Body<Vec<u8>>) -> Vec<u8> {
    match body {
        Body::Empty => Vec::new(),
        Body::Bytes(bytes) => bytes,
        Body::Package(reader) => reader,
    }
}

fn json(served: Served<Vec<u8>>) -> Fallible<Value> {
    Ok(serde_json::from_slice(&bytes(served.body))?)
}

/// Reads a dotted path out of a document.
fn field<'a>(document: &'a Value, path: &str) -> Fallible<&'a Value> {
    let mut node = document;
    for step in path.split('.') {
        node = match step.parse::<usize>() {
            Ok(position) => node.get(position).ok_or("no such element")?,
            Err(_) => node.get(step).ok_or("no such key")?,
        };
    }
    Ok(node)
}

fn text(document: &Value, path: &str) -> Fallible<String> {
    Ok(field(document, path)?.as_str().ok_or("not a string")?.to_string())
}

#[test]
fn it_serves_the_two_documents_and_a_package() -> TestResult {
    let server = server();

    let catalog = serve(&server, "GET", "/v1/index.json", None);
    assert_eq!(catalog.status, 200);
    assert_eq!(text(&json(catalog)?, "plugins.0")?, "formatter");

    let releases = serve(&server, "GET", "/v1/plugins/formatter.json", None);
    assert_eq!(releases.status, 200);
    assert_eq!(text(&json(releases)?, "releases.0.version")?, "1.4.2");

    let blob = serve(&server, "GET", &format!("/v1/blobs/{DIGEST}"), None);
    assert_eq!(blob.status, 200);
    assert_eq!(blob.content_length, Some(13));
    let control = blob.cache_control.clone();
    assert_eq!(bytes(blob.body), b"package bytes");
    assert!(control.contains("immutable"), "{control}");
    Ok(())
}

#[test]
fn it_issues_an_expiry_the_stored_documents_do_not_have() -> TestResult {
    let server = server();
    let stored = server.source().releases("formatter").unwrap();
    assert!(stored.expires.is_none());

    let served = json(serve(&server, "GET", "/v1/plugins/formatter.json", None))?;
    let expires = text(&served, "expires")?;
    let updated = text(&served, "updated")?;
    assert!(
        OffsetDateTime::parse(&expires, &Rfc3339)? > OffsetDateTime::parse(&updated, &Rfc3339)?
    );
    Ok(())
}

#[test]
fn responses_are_identical_within_a_window_and_change_across_one() -> TestResult {
    let server = server();
    let base = 1_800_000_000;

    let early = serve_at(&server, "/v1/index.json", None, base);
    let later = serve_at(&server, "/v1/index.json", None, base + 30 * 60);
    let next = serve_at(&server, "/v1/index.json", None, base + 2 * 3600);

    let (early_etag, next_etag) = (early.etag.clone(), next.etag.clone());
    let later_etag = later.etag.clone();
    let early_bytes = bytes(early.body);
    assert_eq!(early_bytes, bytes(later.body), "same window, same bytes");
    assert_eq!(early_etag, later_etag);

    assert_ne!(early_bytes, bytes(next.body), "a new window must refresh the expiry");
    assert_ne!(early_etag, next_etag);
    Ok(())
}

#[test]
fn a_matching_etag_becomes_a_304_with_no_body() -> TestResult {
    let server = server();

    let first = serve(&server, "GET", "/v1/index.json", None);
    let etag = first.etag.clone().ok_or("no etag issued")?;

    let repeat = serve(&server, "GET", "/v1/index.json", Some(&etag));
    assert_eq!(repeat.status, 304);
    assert!(repeat.body.is_empty());

    let stale = serve(&server, "GET", "/v1/index.json", Some("\"0000000000000000\""));
    assert_eq!(stale.status, 200);
    assert!(!stale.body.is_empty());

    assert_eq!(serve(&server, "GET", "/v1/index.json", Some("*")).status, 304);
    assert_eq!(
        serve(&server, "GET", "/v1/index.json", Some(&format!("W/{etag}"))).status,
        304
    );
    Ok(())
}

#[test]
fn a_304_cannot_outlive_the_window_that_issued_it() -> TestResult {
    let server = server();
    let base = 1_800_000_000;

    let etag = serve_at(&server, "/v1/index.json", None, base).etag.ok_or("no etag issued")?;

    let next = serve_at(&server, "/v1/index.json", Some(&etag), base + 2 * 3600);
    assert_eq!(next.status, 200, "a 304 here would freeze an expired document");
    Ok(())
}

#[test]
fn an_unknown_plugin_is_404_and_nothing_else() -> TestResult {
    let server = server();
    assert_eq!(serve(&server, "GET", "/v1/plugins/nosuch.json", None).status, 404);
    assert_eq!(serve(&server, "GET", "/v1/blobs/sha256:short", None).status, 400);
    assert_eq!(serve(&server, "GET", "/v1/nothing/here", None).status, 404);
    Ok(())
}

#[test]
fn a_traversing_name_is_refused_before_it_reaches_the_disk() -> TestResult {
    let server = server();
    for name in ["../../etc/passwd", "..", "a/b"] {
        let served = serve(&server, "GET", &format!("/v1/plugins/{name}.json"), None);
        assert!(
            served.status == 400 || served.status == 404,
            "`{name}` produced {}",
            served.status
        );
        let bytes = bytes(served.body);
        assert!(!bytes.windows(4).any(|w| w == b"root"), "`{name}` leaked a file");
    }
    Ok(())
}

#[test]
fn head_returns_the_headers_without_a_body() -> TestResult {
    let server = server();
    let get = serve(&server, "GET", "/v1/index.json", None);
    let head = serve(&server, "HEAD", "/v1/index.json", None);
    assert_eq!(head.status, 200);
    assert_eq!(head.etag, get.etag);
    assert!(head.body.is_empty());
    Ok(())
}

/// A reader that counts what is pulled from it.
struct Counting(Arc<AtomicUsize>);

impl std::io::Read for Counting {
    fn read(&mut self, buf: &mut [u8]) -> std::io::Result<usize> {
        self.0.fetch_add(buf.len(), Ordering::Relaxed);
        Ok(buf.len())
    }
}

/// A source of one package, of a stated length.
struct One {
    read: Arc<AtomicUsize>,
    len: u64,
}

impl IndexSource for One {
    type Reader = Counting;

    fn releases(&self, name: &str) -> Result<PluginReleases, IndexError> {
        Err(IndexError::UnknownPlugin(name.to_string()))
    }

    fn catalog(&self) -> Result<Catalog, IndexError> {
        Err(stanchion::index::no_catalog())
    }

    fn blob(&self, _digest: &str) -> Result<Blob<Counting>, IndexError> {
        Ok(Blob::from_reader(Counting(Arc::clone(&self.read)), Some(self.len)))
    }
}

#[test]
fn a_head_on_a_package_reports_its_length_without_reading_it() -> TestResult {
    let read = Arc::new(AtomicUsize::new(0));
    let server = IndexServer::new(One { read: Arc::clone(&read), len: 4096 });
    let head = serve(&server, "HEAD", &format!("/v1/blobs/{DIGEST}"), None);

    assert_eq!(head.status, 200);
    assert_eq!(head.content_length, Some(4096));
    assert!(head.body.is_empty());
    assert_eq!(read.load(Ordering::Relaxed), 0);
    Ok(())
}

#[test]
fn a_package_is_never_buffered_to_be_served() -> TestResult {
    let read = Arc::new(AtomicUsize::new(0));
    let server =
        IndexServer::new(One { read: Arc::clone(&read), len: 8 * 1024 * 1024 * 1024 });
    let served = serve(&server, "GET", &format!("/v1/blobs/{DIGEST}"), None);

    assert_eq!(served.content_length, Some(8 * 1024 * 1024 * 1024));
    assert_eq!(read.load(Ordering::Relaxed), 0);
    Ok(())
}

#[test]
fn other_methods_are_refused() -> TestResult {
    let server = server();
    for method in ["POST", "PUT", "DELETE"] {
        assert_eq!(serve(&server, method, "/v1/index.json", None).status, 405);
    }
    Ok(())
}

#[test]
fn the_ttl_is_clamped_to_something_a_client_can_use() -> TestResult {
    assert_eq!(
        server().ttl(Ttl { secs: 0, nanos: 0 }).configured_ttl(),
        Ttl { secs: 60, nanos: 0 }
    );
    assert_eq!(
        server().ttl(Ttl { secs: 999_999_999, nanos: 0 }).configured_ttl(),
        Ttl { secs: 86_400, nanos: 0 }
    );
    Ok(())
}

#[test]
fn a_window_is_stamped_with_its_start_and_its_end() {
    let server = server();
    let (updated, expires) = server.window(1_800_000_000);
    assert_eq!(updated, "2027-01-15T08:00:00Z");
    assert_eq!(expires, "2027-01-15T09:00:00Z");
    assert_eq!(server.window(1_800_000_000 + 3599), server.window(1_800_000_000));
    assert_eq!(server.remaining(1_800_000_000), 3600);
    assert_eq!(server.remaining(1_800_000_000 + 3599), 1);
    assert_eq!(server.remaining(-1), 1);
    let (before, _) = server.window(-1);
    assert_eq!(before, "1969-12-31T23:00:00Z");
}

#[test]
fn an_error_is_a_document_too() {
    let served: Served<Vec<u8>> = Served::error(404, "no \"such\" thing");
    assert_eq!(served.status, 404);
    assert_eq!(served.content_type, "application/json");
    let body: Value = serde_json::from_slice(&bytes(served.body)).unwrap();
    assert_eq!(text(&body, "error").unwrap(), "no \"such\" thing");
}

#[test]
fn a_validator_depends_on_the_bytes() {
    let one = etag_of(&b"one".to_vec());
    assert_eq!(one, etag_of(&b"one".to_vec()));
    assert_ne!(one, etag_of(&b"two".to_vec()));
    assert!(one.starts_with('"') && one.ends_with('"'));
}

#[test]
fn a_package_file_is_named_by_its_digits() {
    let source = DirectorySource::new("/srv/index");
    let hex = DIGEST.trim_start_matches("sha256:");
    assert!(is_sha256_hex(hex));
    assert_eq!(
        source.blob_file(DIGEST).unwrap(),
        format!("/srv/index/blobs/sha256/{hex}")
    );
    assert!(source.blob_path("sha256:../../etc/passwd").is_none());
    assert!(source.blob_path(hex).is_none());
    assert_eq!(chunk_size(0), 1);
    assert_eq!(chunk_size(512), 512);
}

#[test]
fn a_directory_index_keeps_documents_in_fixed_places() {
    let index = DirectoryIndex::new("/srv/index").freshness(Freshness::Ignored);
    assert_eq!(index.catalog_file(), "/srv/index/v1/index.json");
    assert_eq!(
        index.releases_file("formatter").unwrap(),
        "/srv/index/v1/plugins/formatter.json"
    );
    for name in ["", "..", "a/b", "a b"] {
        assert!(index.releases_file(name).is_err(), "{name}");
    }
}

#[test]
fn what_follows_a_hash_or_a_quotation_is_fixed() {
    let mut hash = [0u8; 32];
    hash[0] = 0xab;
    hash[7] = 0x01;
    hash[8] = 0xff;
    assert_eq!(quote_hash(&hash), "\"ab00000000000001\"");
    assert_eq!(error_document("\"no\""), b"{\"error\":\"no\"}".to_vec());
}

#[test]
fn a_file_that_is_not_there_names_nothing() {
    assert_eq!(
        read_failure("p", "/srv/p.json", true, "gone"),
        IndexError::UnknownPlugin("p".to_string())
    );
    assert_eq!(
        read_failure("p", "/srv/p.json", false, "denied"),
        IndexError::Transport("/srv/p.json: denied".to_string())
    );
}

#[test]
fn an_old_catalog_is_not_accepted_now() {
    let catalog = |expires: &str| Catalog {
        schema: 1,
        name: None,
        updated: None,
        expires: Some(expires.to_string()),
        plugins: Vec::new(),
    };
    assert!(accept_catalog(catalog("2001-01-01T00:00:00Z"), Freshness::Required).is_err());
    assert!(accept_catalog(catalog("2901-01-01T00:00:00Z"), Freshness::Required).is_ok());
    assert!(accept_catalog(catalog("2001-01-01T00:00:00Z"), Freshness::Ignored).is_ok());
}

#[test]
fn a_strict_client_believes_what_the_server_issues_until_the_window_ends() {
    let second: i128 = 1_000_000_000;
    let server = server();
    let stamped = || {
        let stored = PluginReleases {
            schema: 1,
            name: "telemetry".to_string(),
            updated: None,
            expires: None,
            releases: Vec::new(),
        };
        server.stamp_releases(stored, 1_800_000_000 + 600)
    };
    let end = (1_800_000_000 + 3600) * second;
    assert!(believe_releases(stamped(), "telemetry", Freshness::Required, end).is_ok());
    assert!(believe_releases(stamped(), "other", Freshness::Required, end).is_err());
    assert!(matches!(
        believe_releases(stamped(), "telemetry", Freshness::Required, end + 1),
        Err(IndexError::Stale { .. })
    ));
    let half = IndexServer::new(Stored { source: DirectorySource::new("/srv/index") })
        .ttl(Ttl { secs: 3600, nanos: 500_000_000 });
    let catalog = Catalog {
        schema: 1,
        name: None,
        updated: None,
        expires: None,
        plugins: Vec::new(),
    };
    let stamped = half.stamp_catalog(catalog, 1_800_000_000);
    assert_eq!(stamped.expires.as_deref(), Some("2027-01-15T09:00:00.5Z"));
    assert!(Freshness::Required.check_at(&stamped, "the catalog", end + second / 2).is_ok());
    assert!(Freshness::Required.check_at(&stamped, "the catalog", end + second / 2 + 1).is_err());
}

/// A source that cannot enumerate.
struct Unlisted;

impl IndexSource for Unlisted {
    type Reader = Vec<u8>;

    fn releases(&self, name: &str) -> Result<PluginReleases, IndexError> {
        Err(IndexError::UnknownPlugin(name.to_string()))
    }

    fn blob(&self, digest: &str) -> Result<Blob<Vec<u8>>, IndexError> {
        Err(IndexError::UnknownPlugin(digest.to_string()))
    }
}

#[test]
fn a_source_that_cannot_enumerate_says_so() {
    assert!(matches!(
        Unlisted.catalog(),
        Err(IndexError::UnknownPlugin(name)) if name == "<catalog>"
    ));
    let server = IndexServer::new(Unlisted);
    let served = server.serve_at(
        "GET",
        "/v1/index.json",
        None,
        1_800_000_000,
        render_catalog,
        render_releases,
    );
    assert_eq!(served.status, 404);
    let longest = IndexServer::new(Unlisted).ttl(Ttl { secs: 86_400, nanos: 5 }).configured_ttl();
    assert_eq!((longest.secs, longest.nanos), (86_400, 0));
}
