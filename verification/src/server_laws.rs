//! What holds of the index server's replies.

use crate::index::{usable_name, Catalog, IndexError, IndexFault, PluginReleases};
use crate::lock::is_sha256;
use crate::path::under;
use crate::server::{
    answers, asked, blob_reply, clamped, conditional, document_reply, error_body, error_reply,
    failure_reply, names_validator, of_blob, of_releases, package_file, rendered_view, sent,
    shows_releases, stamped_releases, status_for, strong, unslashed, validator, window_left, Asked,
    Blob, BodyModel, IndexSource, Reply, Ttl, LONGEST_TTL_SECS, SHORTEST_TTL_SECS,
};
use crate::signature::sha256_of;
use crate::text;
use crate::text_laws::{
    hexadecimal_tells_bytes_apart, what_follows_a_prefix, what_stands_before_a_suffix,
};
use vstd::prelude::*;
use vstd::string::*;

verus! {

/// Whether a method is one that the server answers.
pub open spec fn is_a_read(method: Seq<char>) -> bool {
    method == "GET"@ || method == "HEAD"@
}

/// A method that does not read is refused wherever it goes, and the two that read ask for the same.
pub proof fn only_reads_are_routed(method: Seq<char>, path: Seq<char>)
    ensures
        asked(method, path) is Method <==> !is_a_read(method),
        is_a_read(method) ==> asked(method, path) == asked("GET"@, path),
{
}

/// Slashes in front of a path do not count.
pub proof fn slashes_in_front_do_not_count(method: Seq<char>, path: Seq<char>)
    ensures
        asked(method, seq!['/'] + path) == asked(method, path),
        path.len() == 0 || path[0] != '/' ==> unslashed(path) == path,
{
    let longer = seq!['/'] + path;
    assert(longer[0] == '/');
    assert(longer.subrange(1, longer.len() as int) =~= path);
}

proof fn routes_differ()
    ensures
        "v1/index.json"@.len() == 13,
        "v1/blobs/"@.len() == 9,
        "v1/plugins/"@.len() == 11,
        "v1/index.json"@[3] == 'i',
        "v1/blobs/"@[3] == 'b',
        "v1/plugins/"@[3] == 'p',
        "v1/blobs/"@[0] == 'v',
        "v1/plugins/"@[0] == 'v',
        "v1/index.json"@[0] == 'v',
{
    reveal_strlit("v1/index.json");
    reveal_strlit("v1/blobs/");
    reveal_strlit("v1/plugins/");
}

/// Every package is asked for by its digest, whatever that is.
pub proof fn packages_are_asked_for_by_digest(method: Seq<char>, digest: Seq<char>)
    requires
        is_a_read(method),
    ensures
        asked(method, "v1/blobs/"@ + digest) == Asked::Blob(digest),
{
    routes_differ();
    let path = "v1/blobs/"@ + digest;
    assert(path[0] == 'v' && path[3] == 'b');
    what_follows_a_prefix(path, "v1/blobs/"@, digest);
}

/// Every plugin is asked for by its name, and a name that is not usable is refused.
pub proof fn plugins_are_asked_for_by_name(method: Seq<char>, name: Seq<char>)
    requires
        is_a_read(method),
    ensures
        usable_name(name) ==> asked(method, "v1/plugins/"@ + name + ".json"@) == Asked::Releases(name),
        !usable_name(name) ==> asked(method, "v1/plugins/"@ + name + ".json"@) is Name,
{
    routes_differ();
    let path = "v1/plugins/"@ + name + ".json"@;
    assert(path[0] == 'v' && path[3] == 'p');
    assert(path =~= "v1/plugins/"@ + (name + ".json"@));
    what_follows_a_prefix(path, "v1/plugins/"@, name + ".json"@);
    what_stands_before_a_suffix(name + ".json"@, ".json"@, name);
    let rest = path.subrange(9, path.len() as int);
    what_follows_a_prefix(path, "v1/blobs/"@, rest);
    assert(("v1/blobs/"@ + rest)[3] == 'b');
}

/// The catalog is asked for by its own path.
pub proof fn the_catalog_has_its_path(method: Seq<char>)
    requires
        is_a_read(method),
    ensures
        asked(method, "v1/index.json"@) is Catalog,
{
    routes_differ();
}

/// Nothing else is asked for: what a path asks for is written in it.
pub proof fn a_path_says_what_it_asks_for(method: Seq<char>, path: Seq<char>)
    requires
        is_a_read(method),
    ensures
        match asked(method, path) {
            Asked::Method => false,
            Asked::Catalog => unslashed(path) == "v1/index.json"@,
            Asked::Blob(digest) => unslashed(path) == "v1/blobs/"@ + digest,
            Asked::Releases(name) => usable_name(name) && unslashed(path) == "v1/plugins/"@ + name
                + ".json"@,
            Asked::Name => exists|name: Seq<char>|
                !usable_name(name) && unslashed(path) == #[trigger] ("v1/plugins/"@ + name + ".json"@),
            Asked::Nothing => true,
        },
{
    let route = unslashed(path);
    match text::after(route, "v1/blobs/"@) {
        Some(digest) => {
            what_follows_a_prefix(route, "v1/blobs/"@, digest);
        },
        None => {
            match text::after(route, "v1/plugins/"@) {
                Some(rest) => {
                    what_follows_a_prefix(route, "v1/plugins/"@, rest);
                    match text::without_suffix(rest, ".json"@) {
                        Some(name) => {
                            what_stands_before_a_suffix(rest, ".json"@, name);
                            assert(route =~= "v1/plugins/"@ + name + ".json"@);
                        },
                        None => {},
                    }
                },
                None => {},
            }
        },
    }
}

/// A reply becomes "not modified" exactly when it is a success with a validator that the client
/// names, and then nothing of it changes but its status and its body. Any other reply is sent as
/// it is.
pub proof fn not_modified_exactly_when_named<R>(reply: Reply<R>, if_none_match: Option<Seq<char>>)
    ensures
        ({
            let named = 200 <= reply.status < 300 && (reply.etag matches Some(etag) && (if_none_match
                matches Some(candidates) && names_validator(candidates, etag)));
            let answer = conditional(reply, if_none_match);
            &&& !named ==> answer == reply
            &&& named ==> {
                &&& answer.status == 304
                &&& answer.body is Empty
                &&& answer.etag == reply.etag
                &&& answer.cache_control == reply.cache_control
                &&& answer.content_type == reply.content_type
                &&& answer.content_length == reply.content_length
            }
        }),
        sent(reply, "GET"@, if_none_match) == conditional(reply, if_none_match),
        sent(reply, "HEAD"@, if_none_match).body is Empty,
        sent(reply, "HEAD"@, if_none_match).status == conditional(reply, if_none_match).status,
{
    reveal_strlit("GET");
    reveal_strlit("HEAD");
    assert("GET"@.len() == 3 && "HEAD"@.len() == 4);
}

/// A client names a validator by a star, or by the validator itself, alone or among others, weak or
/// strong and with space around it; and by nothing else.
pub proof fn naming_a_validator(candidates: Seq<char>, etag: Seq<char>)
    ensures
        names_validator("*"@, etag),
        names_validator(candidates, etag) ==> candidates == "*"@ || exists|i: int|
            0 <= i < text::pieces(candidates, ',').len() && strong(
                text::trimmed(#[trigger] text::pieces(candidates, ',')[i]),
            ) == etag,
        forall|i: int|
            0 <= i < text::pieces(candidates, ',').len() && (text::trimmed(
                #[trigger] text::pieces(candidates, ',')[i],
            ) == etag || text::trimmed(text::pieces(candidates, ',')[i]) == "W/"@ + etag) && strong(
                etag,
            ) == etag ==> names_validator(candidates, etag),
        strong("W/"@ + etag) == strong(etag),
        !text::begins(etag, "W/"@) ==> strong(etag) == etag,
{
    reveal_strlit("W/");
    what_follows_a_prefix("W/"@ + etag, "W/"@, etag);
    assert forall|i: int|
        0 <= i < text::pieces(candidates, ',').len() && (text::trimmed(
            #[trigger] text::pieces(candidates, ',')[i],
        ) == etag || text::trimmed(text::pieces(candidates, ',')[i]) == "W/"@ + etag) && strong(etag)
            == etag implies names_validator(candidates, etag) by {
        assert(strong(text::trimmed(text::pieces(candidates, ',')[i])) == etag);
    }
}

/// A refusal is never kept by a client and names no validator; its length is that of its body.
pub proof fn refusals_are_not_kept<R>(status: u16, message: Seq<char>)
    ensures
        error_reply::<R>(status, message).status == status,
        error_reply::<R>(status, message).cache_control == "no-store"@,
        error_reply::<R>(status, message).etag is None,
        error_reply::<R>(status, message).body == BodyModel::<R>::Bytes(error_body(message)),
        error_reply::<R>(status, message).content_length == Some(error_body(message).len() as u64),
        error_reply::<R>(status, message).content_type == "application/json"@,
{
}

/// What the index does not have is not found, what it cannot read is the client's request, and
/// everything else is the server's.
pub proof fn refusals_have_their_status(fault: IndexFault)
    ensures
        status_for(fault) == 404 <==> fault is UnknownPlugin,
        status_for(fault) == 400 <==> fault is Malformed,
        status_for(fault) == 500 <==> fault is NoMatch || fault is Stale || fault is Transport,
{
}

/// A document that could be rendered is sent whole, may be kept for as long as its window lasts,
/// and is named by what is in it; one that could not be is the server's failure.
pub proof fn documents_are_sent_whole<R>(rendered: Option<Seq<u8>>, now: i64, ttl: Ttl)
    ensures
        document_reply::<R>(rendered, now, ttl).status == if rendered is Some {
            200u16
        } else {
            500u16
        },
        rendered matches Some(body) ==> {
            let reply = document_reply::<R>(rendered, now, ttl);
            &&& reply.body == BodyModel::<R>::Bytes(body)
            &&& reply.content_length == Some(body.len() as u64)
            &&& reply.etag == Some(validator(body))
            &&& reply.content_type == "application/json"@
            &&& reply.cache_control == "public, max-age="@ + text::decimal(
                window_left(now, ttl) as nat,
            )
        },
        rendered is None ==> document_reply::<R>(rendered, now, ttl).etag is None
            && document_reply::<R>(rendered, now, ttl).cache_control == "no-store"@,
{
}

/// A package is sent as it is kept, named by its digest and good for ever; where there is none, the
/// reply is a refusal with its status.
pub proof fn packages_are_sent_as_kept<R>(digest: Seq<char>, blob: Result<Blob<R>, IndexError>)
    ensures
        match blob {
            Ok(kept) => {
                let reply = blob_reply(digest, blob);
                &&& reply.status == 200
                &&& reply.body == BodyModel::Package(kept.reader)
                &&& reply.content_length == kept.len
                &&& reply.etag == Some("\""@ + digest + "\""@)
                &&& reply.cache_control == "public, max-age=31536000, immutable"@
            },
            Err(error) => {
                let reply = blob_reply(digest, blob);
                &&& reply.status == status_for(error@)
                &&& reply.etag is None
                &&& reply.cache_control == "no-store"@
                &&& reply.body == BodyModel::<R>::Bytes(error_body(error@.message()))
            },
        },
{
}

/// A span within the bounds is kept as it is, and any other becomes the nearer bound.
pub proof fn spans_are_bounded(ttl: Ttl)
    ensures
        SHORTEST_TTL_SECS <= ttl.secs < LONGEST_TTL_SECS ==> clamped(ttl) == ttl,
        ttl.secs < SHORTEST_TTL_SECS ==> clamped(ttl) == (Ttl { secs: SHORTEST_TTL_SECS, nanos: 0 }),
        ttl.secs >= LONGEST_TTL_SECS ==> clamped(ttl) == (Ttl { secs: LONGEST_TTL_SECS, nanos: 0 }),
{
}

/// A package is looked for under its digits, in small letters, and only where they are digits: no
/// other path can be asked for.
pub proof fn packages_lie_under_their_digits(base: Seq<char>, digest: Seq<char>)
    ensures
        match package_file(base, digest) {
            Some(file) => exists|digits: Seq<char>|
                {
                    &&& digest == #[trigger] ("sha256:"@ + digits)
                    &&& is_sha256(digits)
                    &&& file == under(under(under(base, "blobs"@), "sha256"@), text::lower(digits))
                },
            None => forall|digits: Seq<char>|
                digest == #[trigger] ("sha256:"@ + digits) ==> !is_sha256(digits),
        },
{
    match text::after(digest, "sha256:"@) {
        Some(digits) => {
            what_follows_a_prefix(digest, "sha256:"@, digits);
            assert forall|other: Seq<char>|
                digest == #[trigger] ("sha256:"@ + other) && !is_sha256(digits) implies !is_sha256(
                other,
            ) by {
                what_follows_a_prefix(digest, "sha256:"@, other);
            }
        },
        None => {
            assert forall|other: Seq<char>| digest == #[trigger] ("sha256:"@ + other) implies !is_sha256(
                other,
            ) by {
                what_follows_a_prefix(digest, "sha256:"@, other);
            }
        },
    }
}

/// A document's validator is eight bytes of its hash, in quotes: two documents have one validator
/// only where those bytes are the same.
pub proof fn a_validator_is_of_the_hash(a: Seq<u8>, b: Seq<u8>)
    requires
        sha256_of(a).len() == 32,
        sha256_of(b).len() == 32,
    ensures
        validator(a) == validator(b) <==> sha256_of(a).take(8) == sha256_of(b).take(8),
        validator(a).len() == 18,
{
    reveal_strlit("\"");
    let x = sha256_of(a).subrange(0, 8);
    let y = sha256_of(b).subrange(0, 8);
    assert(x =~= sha256_of(a).take(8));
    assert(y =~= sha256_of(b).take(8));
    hexadecimal_tells_bytes_apart(x, y);
    hexadecimal_tells_bytes_apart(y, x);
    let p = validator(a);
    let q = validator(b);
    assert(p.subrange(1, 17) =~= text::hex(x));
    assert(q.subrange(1, 17) =~= text::hex(y));
}

/// What is answered to a plain request for a package is what the source keeps under its digest, and
/// nothing is asked of the source under another.
pub proof fn a_package_comes_from_the_source<
    S: IndexSource,
    C: Fn(&Catalog) -> Option<Vec<u8>>,
    D: Fn(&PluginReleases) -> Option<Vec<u8>>,
>(
    answer: Reply<S::Reader>,
    source: S,
    digest: Seq<char>,
    now: i64,
    ttl: Ttl,
    render_catalog: C,
    render_releases: D,
)
    requires
        answers(
            answer,
            source,
            "GET"@,
            "v1/blobs/"@ + digest,
            None,
            now,
            ttl,
            render_catalog,
            render_releases,
        ),
    ensures
        exists|at: &str, blob: Result<Blob<S::Reader>, IndexError>|
            {
                &&& #[trigger] source.keeps(at, blob)
                &&& at@ == digest
                &&& match blob {
                    Ok(kept) => answer.status == 200 && answer.body == BodyModel::Package(
                        kept.reader,
                    ),
                    Err(error) => answer.status == status_for(error@),
                }
            },
{
    packages_are_asked_for_by_digest("GET"@, digest);
    let reply = choose|reply: Reply<S::Reader>|
        answer == #[trigger] sent(reply, "GET"@, None) && of_blob(reply, source, digest);
    not_modified_exactly_when_named(reply, None);
}

/// What is answered to a plain request for a plugin's releases is what the source publishes under
/// its name, stamped and rendered, or a refusal with its status.
pub proof fn releases_come_from_the_source<
    S: IndexSource,
    C: Fn(&Catalog) -> Option<Vec<u8>>,
    D: Fn(&PluginReleases) -> Option<Vec<u8>>,
>(
    answer: Reply<S::Reader>,
    source: S,
    name: Seq<char>,
    now: i64,
    ttl: Ttl,
    render_catalog: C,
    render_releases: D,
)
    requires
        usable_name(name),
        answers(
            answer,
            source,
            "GET"@,
            "v1/plugins/"@ + name + ".json"@,
            None,
            now,
            ttl,
            render_catalog,
            render_releases,
        ),
    ensures
        exists|at: &str, given: Result<PluginReleases, IndexError>|
            {
                &&& #[trigger] source.publishes(at, given)
                &&& at@ == name
                &&& match given {
                    Ok(releases) => answer.status == 500 || (answer.status == 200
                        && shows_stamped(answer, releases, render_releases)),
                    Err(error) => answer.status == status_for(error@),
                }
            },
{
    plugins_are_asked_for_by_name("GET"@, name);
    let reply = choose|reply: Reply<S::Reader>|
        answer == #[trigger] sent(reply, "GET"@, None) && of_releases(
            reply,
            source,
            name,
            render_releases,
            now,
            ttl,
        );
    not_modified_exactly_when_named(reply, None);
    let (at, given) = choose|at: &str, given: Result<PluginReleases, IndexError>|
        at@ == name && #[trigger] source.publishes(at, given) && match given {
            Err(error) => reply == failure_reply::<S::Reader>(error),
            Ok(releases) => shows_releases(reply, releases, render_releases, now, ttl),
        };
    if given is Ok {
        let (stamped, rendered) = choose|stamped: PluginReleases, rendered: Option<Vec<u8>>|
            {
                &&& stamped_releases(stamped, given->Ok_0, now, ttl)
                &&& #[trigger] call_ensures(render_releases, (&stamped,), rendered)
                &&& reply == document_reply::<S::Reader>(rendered_view(rendered), now, ttl)
            };
        documents_are_sent_whole::<S::Reader>(rendered_view(rendered), now, ttl);
        if rendered is Some {
            assert(call_ensures(render_releases, (&stamped,), Some(rendered->0)));
            assert(shows_stamped(answer, given->Ok_0, render_releases));
        }
    }
    assert(source.publishes(at, given));
}

/// Whether a reply's body is what was rendered of a document with these releases.
pub open spec fn shows_stamped<R, D: Fn(&PluginReleases) -> Option<Vec<u8>>>(
    answer: Reply<R>,
    releases: PluginReleases,
    render: D,
) -> bool {
    exists|stamped: PluginReleases, body: Vec<u8>|
        {
            &&& #[trigger] call_ensures(render, (&stamped,), Some(body))
            &&& stamped.name == releases.name
            &&& stamped.releases == releases.releases
            &&& answer.body == BodyModel::<R>::Bytes(body@)
        }
}

} // verus!
