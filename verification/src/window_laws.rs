//! What holds of served documents inside one window, and across two.

use crate::index::{Catalog, IndexError, PluginReleases};
use crate::server::{
    answers, asked, conditional, datable, dated, document_reply, failure_reply, may_list,
    names_validator, of_catalog, rendered_view, sent, shows_catalog, shows_releases,
    stamped_catalog, stamped_releases, strong, validator, window_end, window_expires,
    window_updated, IndexSource, Reply, Ttl,
};
use crate::text;
use vstd::prelude::*;
use vstd::string::*;

verus! {

/// Whether two seconds lie in one window.
pub open spec fn one_window(a: i64, b: i64, ttl: Ttl) -> bool {
    a as int / ttl.secs as int == b as int / ttl.secs as int
}

/// Inside one window the stamps are the same.
pub proof fn one_window_one_stamp(a: i64, b: i64, ttl: Ttl)
    requires
        ttl.secs > 0,
        one_window(a, b, ttl),
    ensures
        window_updated(a, ttl) == window_updated(b, ttl),
        window_expires(a, ttl) == window_expires(b, ttl),
{
    let t = ttl.secs as int;
    vstd::arithmetic::div_mod::lemma_fundamental_div_mod(a as int, t);
    vstd::arithmetic::div_mod::lemma_fundamental_div_mod(b as int, t);
}

/// Documents of different windows expire at different times, and say so: wherever both windows
/// lie in the years that a stamp can be written for, their expiries are different texts.
pub proof fn another_window_another_stamp(
    x: Option<Seq<char>>,
    y: Option<Seq<char>>,
    a: i64,
    b: i64,
    ttl: Ttl,
)
    requires
        ttl.secs > 0,
        !one_window(a, b, ttl),
        datable(a, ttl),
        datable(b, ttl),
        dated(x, a, ttl),
        dated(y, b, ttl),
    ensures
        x != y,
{
    let t = ttl.secs as int;
    vstd::arithmetic::div_mod::lemma_fundamental_div_mod(a as int, t);
    vstd::arithmetic::div_mod::lemma_fundamental_div_mod(b as int, t);
    let p = a as int / t;
    let q = b as int / t;
    if x == y {
        assert(window_end(a, ttl) == window_end(b, ttl));
        assert(t * p == t * q);
        assert(p == q) by (nonlinear_arith)
            requires
                t > 0,
                t * p == t * q,
        ;
    }
}

/// Whether two catalogs say the same.
pub open spec fn same_catalog(x: Catalog, y: Catalog) -> bool {
    &&& x.schema == y.schema
    &&& x.name == y.name
    &&& text::opt(x.updated) == text::opt(y.updated)
    &&& text::opt(x.expires) == text::opt(y.expires)
    &&& x.plugins == y.plugins
}

/// Whether two release documents say the same.
pub open spec fn same_releases(x: PluginReleases, y: PluginReleases) -> bool {
    &&& x.schema == y.schema
    &&& x.name == y.name
    &&& text::opt(x.updated) == text::opt(y.updated)
    &&& text::opt(x.expires) == text::opt(y.expires)
    &&& x.releases == y.releases
}

/// Whether catalogs are rendered by what they say: the same for those that say the same, and
/// different for those that expire at different times.
pub open spec fn renders_catalogs<C: Fn(&Catalog) -> Option<Vec<u8>>>(render: C) -> bool {
    forall|x: Catalog, y: Catalog, a: Option<Vec<u8>>, b: Option<Vec<u8>>|
        #![trigger call_ensures(render, (&x,), a), call_ensures(render, (&y,), b)]
        call_ensures(render, (&x,), a) && call_ensures(render, (&y,), b) ==> {
            &&& same_catalog(x, y) ==> rendered_view(a) == rendered_view(b)
            &&& rendered_view(a) is Some && rendered_view(a) == rendered_view(b) ==> text::opt(
                x.expires,
            ) == text::opt(y.expires)
        }
}

/// Whether release documents are rendered by what they say.
pub open spec fn renders_releases<D: Fn(&PluginReleases) -> Option<Vec<u8>>>(render: D) -> bool {
    forall|x: PluginReleases, y: PluginReleases, a: Option<Vec<u8>>, b: Option<Vec<u8>>|
        #![trigger call_ensures(render, (&x,), a), call_ensures(render, (&y,), b)]
        call_ensures(render, (&x,), a) && call_ensures(render, (&y,), b) ==> {
            &&& same_releases(x, y) ==> rendered_view(a) == rendered_view(b)
            &&& rendered_view(a) is Some && rendered_view(a) == rendered_view(b) ==> text::opt(
                x.expires,
            ) == text::opt(y.expires)
        }
}

/// Whether a client that kept one response is told, of another, that it has changed: it gets the
/// other whole, unless the two bodies have one validator.
pub open spec fn told_of_the_change<R>(kept: Reply<R>, now: Reply<R>) -> bool {
    kept.etag != now.etag ==> conditional(now, kept.etag) == now
}

proof fn hex_is_plain(bytes: Seq<u8>, i: int)
    requires
        0 <= i < text::hex(bytes).len(),
    ensures
        text::hex(bytes)[i] != ',',
        text::hex(bytes)[i] != '*',
        !text::is_space(text::hex(bytes)[i]),
{
}

/// A validator names itself alone.
proof fn names_itself_alone(body: Seq<u8>, etag: Seq<char>)
    requires
        names_validator(validator(body), etag),
    ensures
        validator(body) == etag,
{
    let named = validator(body);
    let digits = text::hex(crate::signature::sha256_of(body).subrange(0, 8));
    reveal_strlit("\"");
    reveal_strlit("*");
    reveal_strlit("W/");
    assert(named[0] == '"');
    assert(named[named.len() - 1] == '"');
    assert(named.len() == digits.len() + 2);
    assert forall|i: int| 0 <= i < named.len() implies named[i] != ',' by {
        if 0 < i < named.len() - 1 {
            hex_is_plain(crate::signature::sha256_of(body).subrange(0, 8), i - 1);
            assert(named[i] == digits[i - 1]);
        }
    }
    text::find_bounds(named, ',', 0);
    let cut = text::find(named, ',', 0);
    assert(cut >= named.len()) by {
        if cut < named.len() {
            assert(named[cut] == ',');
        }
    }
    assert(named.subrange(0, named.len() as int) =~= named);
    assert(text::pieces(named, ',') =~= seq![named]);
    assert(text::trimmed(named) == named);
    assert(text::after(named, "W/"@) is None) by {
        if text::after(named, "W/"@) is Some {
            assert(named.subrange(0, 2)[0] == named[0]);
        }
    }
    assert(strong(named) == named);
    if named == "*"@ {
        assert(named[0] == '*');
    }
}

proof fn changes_show<R>(kept: Reply<R>, now: Reply<R>, body: Seq<u8>)
    requires
        kept.etag == Some(validator(body)),
    ensures
        told_of_the_change(kept, now),
{
    if now.etag is Some && names_validator(kept.etag->0, now.etag->0) {
        names_itself_alone(body, now.etag->0);
    }
}

/// Inside one window every response for a catalog is the same: the status, the body and the
/// validator.
pub proof fn one_window_one_catalog<R, C: Fn(&Catalog) -> Option<Vec<u8>>>(
    x: Reply<R>,
    y: Reply<R>,
    catalog: Catalog,
    render: C,
    a: i64,
    b: i64,
    ttl: Ttl,
)
    requires
        ttl.secs > 0,
        one_window(a, b, ttl),
        renders_catalogs(render),
        shows_catalog(x, catalog, render, a, ttl),
        shows_catalog(y, catalog, render, b, ttl),
    ensures
        x.status == y.status,
        x.body == y.body,
        x.etag == y.etag,
{
    one_window_one_stamp(a, b, ttl);
    let (s, p) = choose|s: Catalog, p: Option<Vec<u8>>|
        {
            &&& stamped_catalog(s, catalog, a, ttl)
            &&& #[trigger] call_ensures(render, (&s,), p)
            &&& x == document_reply::<R>(rendered_view(p), a, ttl)
        };
    let (t, q) = choose|t: Catalog, q: Option<Vec<u8>>|
        {
            &&& stamped_catalog(t, catalog, b, ttl)
            &&& #[trigger] call_ensures(render, (&t,), q)
            &&& y == document_reply::<R>(rendered_view(q), b, ttl)
        };
    assert(same_catalog(s, t));
    assert(rendered_view(p) == rendered_view(q));
}

/// Across two windows the responses for a catalog differ, so that a client that kept one gets the
/// other whole.
pub proof fn another_window_another_catalog<R, C: Fn(&Catalog) -> Option<Vec<u8>>>(
    x: Reply<R>,
    y: Reply<R>,
    catalog: Catalog,
    render: C,
    a: i64,
    b: i64,
    ttl: Ttl,
)
    requires
        ttl.secs > 0,
        !one_window(a, b, ttl),
        datable(a, ttl),
        datable(b, ttl),
        renders_catalogs(render),
        shows_catalog(x, catalog, render, a, ttl),
        shows_catalog(y, catalog, render, b, ttl),
        x.status == 200,
    ensures
        y.status == 200 ==> x.body != y.body,
        told_of_the_change(x, y),
{
    let (s, p) = choose|s: Catalog, p: Option<Vec<u8>>|
        {
            &&& stamped_catalog(s, catalog, a, ttl)
            &&& #[trigger] call_ensures(render, (&s,), p)
            &&& x == document_reply::<R>(rendered_view(p), a, ttl)
        };
    let (t, q) = choose|t: Catalog, q: Option<Vec<u8>>|
        {
            &&& stamped_catalog(t, catalog, b, ttl)
            &&& #[trigger] call_ensures(render, (&t,), q)
            &&& y == document_reply::<R>(rendered_view(q), b, ttl)
        };
    another_window_another_stamp(text::opt(s.expires), text::opt(t.expires), a, b, ttl);
    assert(rendered_view(p) != rendered_view(q));
    changes_show(x, y, rendered_view(p)->0);
}

/// Inside one window every response for a plugin's releases is the same.
pub proof fn one_window_one_document<R, D: Fn(&PluginReleases) -> Option<Vec<u8>>>(
    x: Reply<R>,
    y: Reply<R>,
    releases: PluginReleases,
    render: D,
    a: i64,
    b: i64,
    ttl: Ttl,
)
    requires
        ttl.secs > 0,
        one_window(a, b, ttl),
        renders_releases(render),
        shows_releases(x, releases, render, a, ttl),
        shows_releases(y, releases, render, b, ttl),
    ensures
        x.status == y.status,
        x.body == y.body,
        x.etag == y.etag,
{
    one_window_one_stamp(a, b, ttl);
    let (s, p) = choose|s: PluginReleases, p: Option<Vec<u8>>|
        {
            &&& stamped_releases(s, releases, a, ttl)
            &&& #[trigger] call_ensures(render, (&s,), p)
            &&& x == document_reply::<R>(rendered_view(p), a, ttl)
        };
    let (t, q) = choose|t: PluginReleases, q: Option<Vec<u8>>|
        {
            &&& stamped_releases(t, releases, b, ttl)
            &&& #[trigger] call_ensures(render, (&t,), q)
            &&& y == document_reply::<R>(rendered_view(q), b, ttl)
        };
    assert(same_releases(s, t));
    assert(rendered_view(p) == rendered_view(q));
}

/// Across two windows the responses for a plugin's releases differ, so that a client that kept
/// one gets the other whole.
pub proof fn another_window_another_document<R, D: Fn(&PluginReleases) -> Option<Vec<u8>>>(
    x: Reply<R>,
    y: Reply<R>,
    releases: PluginReleases,
    render: D,
    a: i64,
    b: i64,
    ttl: Ttl,
)
    requires
        ttl.secs > 0,
        !one_window(a, b, ttl),
        datable(a, ttl),
        datable(b, ttl),
        renders_releases(render),
        shows_releases(x, releases, render, a, ttl),
        shows_releases(y, releases, render, b, ttl),
        x.status == 200,
    ensures
        y.status == 200 ==> x.body != y.body,
        told_of_the_change(x, y),
{
    let (s, p) = choose|s: PluginReleases, p: Option<Vec<u8>>|
        {
            &&& stamped_releases(s, releases, a, ttl)
            &&& #[trigger] call_ensures(render, (&s,), p)
            &&& x == document_reply::<R>(rendered_view(p), a, ttl)
        };
    let (t, q) = choose|t: PluginReleases, q: Option<Vec<u8>>|
        {
            &&& stamped_releases(t, releases, b, ttl)
            &&& #[trigger] call_ensures(render, (&t,), q)
            &&& y == document_reply::<R>(rendered_view(q), b, ttl)
        };
    another_window_another_stamp(text::opt(s.expires), text::opt(t.expires), a, b, ttl);
    assert(rendered_view(p) != rendered_view(q));
    changes_show(x, y, rendered_view(p)->0);
}

/// What is served of a source that gives one catalog each time: two requests for it, inside one
/// window or across two, are answered alike or apart, and a client that names the validator of the
/// first answer gets the second whole, unless nothing has changed.
pub proof fn served_catalogs_follow_the_window<
    S: IndexSource,
    C: Fn(&Catalog) -> Option<Vec<u8>>,
    D: Fn(&PluginReleases) -> Option<Vec<u8>>,
>(
    source: S,
    catalog: Catalog,
    path: Seq<char>,
    x: Reply<S::Reader>,
    y: Reply<S::Reader>,
    z: Reply<S::Reader>,
    a: i64,
    b: i64,
    ttl: Ttl,
    render_catalog: C,
    render_releases: D,
)
    requires
        ttl.secs > 0,
        forall|given: Result<Catalog, IndexError>| #[trigger]
            source.lists(given) ==> given == Ok::<Catalog, IndexError>(catalog),
        renders_catalogs(render_catalog),
        asked("GET"@, path) is Catalog,
        answers(x, source, "GET"@, path, None, a, ttl, render_catalog, render_releases),
        answers(y, source, "GET"@, path, None, b, ttl, render_catalog, render_releases),
        answers(z, source, "GET"@, path, x.etag, b, ttl, render_catalog, render_releases),
        x.status == 200,
        y.status == 200,
        z.status == 200 || z.status == 304,
    ensures
        one_window(a, b, ttl) ==> x.body == y.body && x.etag == y.etag,
        !one_window(a, b, ttl) && datable(a, ttl) && datable(b, ttl) ==> x.body != y.body && (x.etag
            != y.etag ==> z.status == 200 && z.body == y.body),
{
    is_the_catalog(source, catalog, path, x, None, a, ttl, render_catalog, render_releases);
    is_the_catalog(source, catalog, path, y, None, b, ttl, render_catalog, render_releases);
    let whole = is_the_catalog(
        source,
        catalog,
        path,
        z,
        x.etag,
        b,
        ttl,
        render_catalog,
        render_releases,
    );
    vstd::arithmetic::div_mod::lemma_fundamental_div_mod(b as int, ttl.secs as int);
    one_window_one_catalog(y, whole, catalog, render_catalog, b, b, ttl);
    if one_window(a, b, ttl) {
        one_window_one_catalog(x, y, catalog, render_catalog, a, b, ttl);
    } else if datable(a, ttl) && datable(b, ttl) {
        another_window_another_catalog(x, y, catalog, render_catalog, a, b, ttl);
        another_window_another_catalog(x, whole, catalog, render_catalog, a, b, ttl);
    }
}

proof fn is_the_catalog<
    S: IndexSource,
    C: Fn(&Catalog) -> Option<Vec<u8>>,
    D: Fn(&PluginReleases) -> Option<Vec<u8>>,
>(
    source: S,
    catalog: Catalog,
    path: Seq<char>,
    answer: Reply<S::Reader>,
    if_none_match: Option<Seq<char>>,
    now: i64,
    ttl: Ttl,
    render_catalog: C,
    render_releases: D,
) -> (reply: Reply<S::Reader>)
    requires
        forall|given: Result<Catalog, IndexError>| #[trigger]
            source.lists(given) ==> given == Ok::<Catalog, IndexError>(catalog),
        asked("GET"@, path) is Catalog,
        answers(
            answer,
            source,
            "GET"@,
            path,
            if_none_match,
            now,
            ttl,
            render_catalog,
            render_releases,
        ),
        answer.status == 200 || answer.status == 304,
    ensures
        answer == conditional(reply, if_none_match),
        if_none_match is None ==> answer == reply,
        shows_catalog(reply, catalog, render_catalog, now, ttl),
{
    reveal_strlit("GET");
    reveal_strlit("HEAD");
    assert("GET"@.len() != "HEAD"@.len());
    let reply = choose|reply: Reply<S::Reader>|
        answer == #[trigger] sent(reply, "GET"@, if_none_match) && of_catalog(
            reply,
            source,
            render_catalog,
            now,
            ttl,
        );
    let given = choose|given: Result<Catalog, IndexError>| #[trigger]
        may_list(source, given) && match given {
            Err(error) => reply == failure_reply::<S::Reader>(error),
            Ok(catalog) => shows_catalog(reply, catalog, render_catalog, now, ttl),
        };
    assert(given is Ok);
    assert(source.lists(given));
    reply
}

} // verus!
