//! Fetching documents and packages: which references are understood, and which answers are
//! accepted. Nothing that is fetched is believed: a document is checked for freshness, and a
//! package against its digest.

use crate::index::{
    releases_path, releases_path_of, unusable_text, usable_name, validate_name, Freshness,
    IndexError, IndexFault,
};
use crate::install::SourceError;
use crate::package::sum;
use crate::text;
use vstd::prelude::*;
use vstd::string::*;

verus! {

/// Largest package a source holds in memory, unless raised.
pub const DEFAULT_PACKAGE_LIMIT: u64 = 67_108_864;

/// A text without the slashes it ends with.
pub open spec fn without_slashes(base: Seq<char>) -> Seq<char>
    decreases base.len(),
{
    if base.len() > 0 && base.last() == '/' {
        without_slashes(base.drop_last())
    } else {
        base
    }
}

fn trim_slashes(base: &str) -> (r: String)
    ensures
        r@ == without_slashes(base@),
{
    let chars = text::chars_of(base);
    let mut n: usize = chars.len();
    proof {
        assert(base@.subrange(0, n as int) =~= base@);
    }
    while n > 0 && chars[n - 1] == '/'
        invariant
            chars@ == base@,
            n <= chars.len(),
            without_slashes(base@) == without_slashes(base@.subrange(0, n as int)),
        decreases n,
    {
        proof {
            let here = base@.subrange(0, n as int);
            assert(here.last() == base@[n - 1]);
            assert(here.drop_last() =~= base@.subrange(0, n - 1));
        }
        n = n - 1;
    }
    proof {
        let here = base@.subrange(0, n as int);
        if n > 0 {
            assert(here.last() == base@[n - 1]);
        }
    }
    text::text_of(&chars, 0, n)
}

/// Where an index is served over HTTP, and how strictly its documents' expiry is treated.
#[derive(Debug, Clone, PartialEq, Eq)]
pub struct HttpIndex {
    base: String,
    strictness: Freshness,
}

/// What is wrong with the answer of an index, if anything: `404` is a missing plugin rather
/// than an outage.
pub open spec fn answer_fault(
    url: Seq<char>,
    what: Seq<char>,
    status: u16,
    status_text: Seq<char>,
) -> Option<IndexFault> {
    if status == 404 {
        Some(IndexFault::UnknownPlugin(what))
    } else if !(200 <= status < 300) {
        Some(IndexFault::Transport(url + ": the index answered "@ + status_text))
    } else {
        None
    }
}

impl HttpIndex {
    pub closed spec fn origin(self) -> Seq<char> {
        self.base@
    }

    pub closed spec fn strict(self) -> Freshness {
        self.strictness
    }

    /// Reads documents from under `base`, which may or may not end in a slash. A document
    /// fetched from somewhere else is exactly the case where a withheld update has to be
    /// noticed, so one without an expiry is refused unless [`HttpIndex::freshness`] says so.
    pub fn new(base: &str) -> (r: HttpIndex)
        ensures
            r.origin() == without_slashes(base@),
            r.strict() == Freshness::Required,
    {
        HttpIndex { base: trim_slashes(base), strictness: Freshness::Required }
    }

    /// How strictly to treat document expiry.
    pub fn freshness(self, freshness: Freshness) -> (r: HttpIndex)
        ensures
            r.origin() == self.origin(),
            r.strict() == freshness,
    {
        HttpIndex { base: self.base, strictness: freshness }
    }

    /// How strictly document expiry is treated.
    pub fn strictness(&self) -> (r: Freshness)
        ensures
            r == self.strict(),
    {
        self.strictness
    }

    /// The URL of a document.
    pub fn url(&self, path: &str) -> (r: String)
        ensures
            r@ == self.origin() + "/"@ + path@,
    {
        let mut out = self.base.clone();
        out.append("/");
        out.append(path);
        out
    }

    /// The URL of a plugin's release document. The name becomes part of it, so it is checked
    /// before it is put there.
    pub fn releases_url(&self, name: &str) -> (r: Result<String, IndexError>)
        ensures
            usable_name(name@) ==> (r matches Ok(url) && url@ == self.origin() + "/"@
                + releases_path_of(name@)),
            !usable_name(name@) ==> (r matches Err(error) && error@ == IndexFault::Malformed(
                unusable_text(name@),
            )),
    {
        match validate_name(name) {
            Err(error) => Err(error),
            Ok(name) => Ok(self.url(releases_path(name).as_str())),
        }
    }
}

/// Judges the answer of an index.
pub fn judge_answer(url: &str, what: &str, status: u16, status_text: &str) -> (r: Result<
    (),
    IndexError,
>)
    ensures
        crate::index::index_fault(r) == answer_fault(url@, what@, status, status_text@),
{
    if status == 404 {
        return Err(IndexError::UnknownPlugin(what.to_owned()));
    }
    if !(status >= 200 && status < 300) {
        let mut out = url.to_owned();
        out.append(": the index answered ");
        out.append(status_text);
        return Err(IndexError::Transport(out));
    }
    Ok(())
}

/// Fetches plugin packages over HTTP, up to a size.
#[derive(Debug, Clone, Copy, PartialEq, Eq, Structural)]
pub struct HttpSource {
    cap: u64,
}

/// Whether a reference is one that is fetched over HTTP.
pub open spec fn is_http(reference: Seq<char>) -> bool {
    text::begins(reference, "https://"@) || text::begins(reference, "http://"@)
}

impl HttpSource {
    pub closed spec fn most(self) -> u64 {
        self.cap
    }

    /// A source with the default cap.
    pub fn new() -> (r: HttpSource)
        ensures
            r.most() == DEFAULT_PACKAGE_LIMIT,
    {
        HttpSource { cap: DEFAULT_PACKAGE_LIMIT }
    }

    /// Caps how large a package may be: without a cap a hostile or misbehaving server could
    /// exhaust memory.
    pub fn limit(self, bytes: u64) -> (r: HttpSource)
        ensures
            r.most() == bytes,
    {
        HttpSource { cap: bytes }
    }

    /// How large a package may be.
    pub fn configured_limit(&self) -> (r: u64)
        ensures
            r == self.most(),
    {
        self.cap
    }

    /// Confirms that a reference is one this source can fetch. Another source may understand
    /// a scheme this one does not, so an unknown scheme is unsupported rather than a failure.
    pub fn check_reference(&self, reference: &str) -> (r: Result<(), SourceError>)
        ensures
            is_http(reference@) ==> r is Ok,
            !is_http(reference@) ==> (r matches Err(SourceError::Unsupported(named)) && named@
                == reference@),
    {
        if text::starts_with(reference, "https://") || text::starts_with(reference, "http://") {
            Ok(())
        } else {
            Err(SourceError::Unsupported(reference.to_owned()))
        }
    }

    /// Judges the answer of a source: its status, and the length it declares where it
    /// declares one, so that an obvious case costs nothing to refuse.
    pub fn judge_response(
        &self,
        reference: &str,
        status: u16,
        status_text: &str,
        length: Option<u64>,
    ) -> (r: Result<(), SourceError>)
        ensures
            status == 404 ==> (r matches Err(SourceError::NotFound(named)) && named@
                == reference@),
            status != 404 && !(200 <= status < 300) ==> (r matches Err(
                SourceError::Transport(message),
            ) && message@ == reference@ + ": the source answered "@ + status_text@),
            200 <= status < 300 && (length matches Some(bytes) && bytes > self.most()) ==> (
            r matches Err(SourceError::Malformed(message)) && message@ == reference@
                + ": the package declares "@ + text::decimal(length->0 as nat)
                + " bytes, over the "@ + text::decimal(self.most() as nat) + " byte limit"@),
            200 <= status < 300 && !(length matches Some(bytes) && bytes > self.most()) ==> r is Ok,
    {
        if status == 404 {
            return Err(SourceError::NotFound(reference.to_owned()));
        }
        if !(status >= 200 && status < 300) {
            let mut out = reference.to_owned();
            out.append(": the source answered ");
            out.append(status_text);
            return Err(SourceError::Transport(out));
        }
        match length {
            Some(bytes) => {
                if bytes > self.cap {
                    let mut out = reference.to_owned();
                    out.append(": the package declares ");
                    out.append(text::number(bytes).as_str());
                    out.append(" bytes, over the ");
                    out.append(text::number(self.cap).as_str());
                    out.append(" byte limit");
                    return Err(SourceError::Malformed(out));
                }
            },
            None => {},
        }
        Ok(())
    }

    /// How many bytes of a body are read at most: one more than a package may have, because
    /// a declared length is a claim.
    pub fn read_budget(&self) -> (r: u64)
        ensures
            r == sum(self.most(), 1),
    {
        self.cap.saturating_add(1)
    }

    /// Judges a body, once it was read.
    pub fn judge_body(&self, reference: &str, body: Vec<u8>) -> (r: Result<Vec<u8>, SourceError>)
        ensures
            body@.len() <= self.most() ==> r == Ok::<Vec<u8>, SourceError>(body),
            body@.len() > self.most() ==> (r matches Err(SourceError::Malformed(message))
                && message@ == reference@ + ": the package exceeds the "@ + text::decimal(
                self.most() as nat,
            ) + " byte limit"@),
    {
        if body.len() as u64 > self.cap {
            let mut out = reference.to_owned();
            out.append(": the package exceeds the ");
            out.append(text::number(self.cap).as_str());
            out.append(" byte limit");
            return Err(SourceError::Malformed(out));
        }
        Ok(body)
    }
}

/// What a registry can show of a plugin without its package. Advisory: the manifest inside
/// the package is what a registry of plugins reads.
#[derive(Debug, Clone, PartialEq, Eq)]
pub struct ArtifactConfig {
    /// Plugin name.
    pub name: String,
    /// Plugin version.
    pub version: String,
    /// Root directory digest, as `sha256:<hex>`.
    pub digest: String,
    /// Capabilities the plugin's manifest declares.
    pub capabilities: Vec<String>,
}

/// Scheme of references to an OCI registry.
pub const OCI_SCHEME: &'static str = "oci://";

/// Media type of the one layer of a plugin artifact.
pub const LAYER_MEDIA_TYPE: &'static str =
    "application/vnd.stanchion.plugin.layer.v1.tar+gzip";

/// A registry reference without the scheme, if there is one left.
pub open spec fn bare_reference_of(reference: Seq<char>) -> Option<Seq<char>> {
    let bare = match text::after(reference, "oci://"@) {
        Some(rest) => rest,
        None => reference,
    };
    if bare.len() == 0 {
        None
    } else {
        Some(bare)
    }
}

/// An `oci://` reference, or a bare registry reference, without the scheme.
pub fn bare_reference(reference: &str) -> (r: Result<String, SourceError>)
    ensures
        match bare_reference_of(reference@) {
            Some(bare) => r matches Ok(found) && found@ == bare,
            None => r matches Err(SourceError::Unsupported(named)) && named@ == reference@,
        },
{
    let bare = match text::strip_prefix(reference, "oci://") {
        Some(rest) => rest,
        None => reference.to_owned(),
    };
    if bare.as_str().is_empty() {
        return Err(SourceError::Unsupported(reference.to_owned()));
    }
    Ok(bare)
}

/// What the OCI reference parser makes of a text: the reference written out in full, or why
/// it is none.
pub uninterp spec fn parsed_reference(bare: Seq<char>) -> Result<Seq<char>, Seq<char>>;

/// Calls `oci_client::Reference::try_from`, and `whole` on what it gives. The result is taken
/// to depend on the text alone; which texts are references is not stated.
#[verifier::external_body]
fn parse_oci(bare: &str) -> (r: Result<String, String>)
    ensures
        match parsed_reference(bare@) {
            Ok(whole) => r matches Ok(found) && found@ == whole,
            Err(message) => r matches Err(said) && said@ == message,
        },
{
    match oci_client::Reference::try_from(bare) {
        Ok(reference) => Ok(reference.whole()),
        Err(error) => Err(error.to_string()),
    }
}

/// Parses an `oci://` reference, or a bare registry reference, and writes it out in full.
pub fn parse_reference(reference: &str) -> (r: Result<String, SourceError>)
    ensures
        match bare_reference_of(reference@) {
            None => r matches Err(SourceError::Unsupported(named)) && named@ == reference@,
            Some(bare) => reference_answer(reference@, parsed_reference(bare), r),
        },
{
    match bare_reference(reference) {
        Err(error) => Err(error),
        Ok(bare) => judge_reference(reference, parse_oci(bare.as_str())),
    }
}

/// Whether a result is what parsing a reference comes to, given what the parser made of it.
pub open spec fn reference_answer(
    reference: Seq<char>,
    parsed: Result<Seq<char>, Seq<char>>,
    r: Result<String, SourceError>,
) -> bool {
    match parsed {
        Ok(whole) => r matches Ok(found) && found@ == whole,
        Err(message) => r matches Err(SourceError::Unsupported(said)) && said@ == "`"@ + reference
            + "` is not an OCI reference: "@ + message,
    }
}

/// What parsing a reference comes to, given what the parser made of it.
pub fn judge_reference(reference: &str, parsed: Result<String, String>) -> (r: Result<
    String,
    SourceError,
>)
    ensures
        match parsed {
            Ok(whole) => r matches Ok(found) && found@ == whole@,
            Err(message) => r matches Err(SourceError::Unsupported(said)) && said@ == "`"@
                + reference@ + "` is not an OCI reference: "@ + message@,
        },
{
    match parsed {
        Ok(whole) => Ok(whole),
        Err(message) => {
            let mut out = "`".to_owned();
            out.append(reference);
            out.append("` is not an OCI reference: ");
            out.append(message.as_str());
            Err(SourceError::Unsupported(out))
        },
    }
}

/// How a registry of OCI artifacts failed.
#[derive(Debug, PartialEq, Eq)]
pub enum OciFailure {
    /// It has no manifest for the reference.
    NoManifest(String),
    /// The manifest it has could not be read.
    BadManifest(String),
    /// It did not accept who asked.
    Refused(String),
    /// Anything else.
    Other(String),
}

/// Turns a registry's failure into one that says what a caller can do about it.
pub fn translate(failure: OciFailure) -> (r: SourceError)
    ensures
        match failure {
            OciFailure::NoManifest(reference) => r == SourceError::NotFound(reference),
            OciFailure::BadManifest(reference) => r == SourceError::NotFound(reference),
            OciFailure::Refused(message) => r matches SourceError::Transport(said) && said@
                == "authentication failed: "@ + message@,
            OciFailure::Other(message) => r == SourceError::Transport(message),
        },
{
    match failure {
        OciFailure::NoManifest(reference) => SourceError::NotFound(reference),
        OciFailure::BadManifest(reference) => SourceError::NotFound(reference),
        OciFailure::Refused(message) => {
            let mut out = "authentication failed: ".to_owned();
            out.append(message.as_str());
            SourceError::Transport(out)
        },
        OciFailure::Other(message) => SourceError::Transport(message),
    }
}

/// How many of the first `n` layers are of the plugin layer type.
pub open spec fn plugin_layers(types: Seq<String>, n: int) -> nat
    decreases n,
{
    if n <= 0 {
        0
    } else {
        plugin_layers(types, n - 1) + if types[n - 1]@
            == "application/vnd.stanchion.plugin.layer.v1.tar+gzip"@ {
            1nat
        } else {
            0nat
        }
    }
}

/// The place of the one plugin layer of an artifact, given the types of its layers.
///
/// One directory, one layer: with more than one, guessing which is the plugin is how a
/// fetcher ends up unpacking the wrong thing.
pub fn select_layer(reference: &str, types: &Vec<String>) -> (r: Result<usize, SourceError>)
    ensures
        ({
            let count = plugin_layers(types@, types@.len() as int);
            if count == 0 {
                r matches Err(SourceError::Malformed(message)) && message@ == "`"@ + reference@
                    + "` carries no `application/vnd.stanchion.plugin.layer.v1.tar+gzip` layer, so it is not a stanchion plugin"@
            } else if count > 1 {
                r matches Err(SourceError::Malformed(message)) && message@ == "`"@ + reference@
                    + "` carries more than one plugin layer"@
            } else {
                r matches Ok(at) && at < types@.len() && types@[at as int]@
                    == "application/vnd.stanchion.plugin.layer.v1.tar+gzip"@
            }
        }),
{
    let n: usize = types.len();
    let mut found: Option<usize> = None;
    let mut more = false;
    let mut i: usize = 0;
    while i < n
        invariant
            n == types.len(),
            i <= n,
            plugin_layers(types@, i as int) == 0 <==> found is None,
            plugin_layers(types@, i as int) > 1 <==> more,
            found matches Some(at) ==> at < i && types@[at as int]@
                == "application/vnd.stanchion.plugin.layer.v1.tar+gzip"@,
        decreases n - i,
    {
        if text::same(
            types[i].as_str(),
            "application/vnd.stanchion.plugin.layer.v1.tar+gzip",
        ) {
            match found {
                None => {
                    found = Some(i);
                },
                Some(_) => {
                    more = true;
                },
            }
        }
        i = i + 1;
    }
    match found {
        None => {
            let mut out = "`".to_owned();
            out.append(reference);
            out.append(
                "` carries no `application/vnd.stanchion.plugin.layer.v1.tar+gzip` layer, so it is not a stanchion plugin",
            );
            Err(SourceError::Malformed(out))
        },
        Some(at) => {
            if more {
                let mut out = "`".to_owned();
                out.append(reference);
                out.append("` carries more than one plugin layer");
                Err(SourceError::Malformed(out))
            } else {
                Ok(at)
            }
        },
    }
}

} // verus!
