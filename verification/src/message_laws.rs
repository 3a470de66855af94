//! What holds of what is said: every message tells what it is about, in its order.

use crate::error::Error;
use crate::failure::{Failed, RegistryError, Why};
use crate::index::IndexFault;
use crate::lock::LockFault;
use crate::package::PackageFault;
use crate::text;
use crate::upgrade::{budget_text, marker, optionality, runtime_text, Diff};
use vstd::prelude::*;
use vstd::string::*;

verus! {

/// Whether a text is another with something before it and something behind.
pub open spec fn framed_one(s: Seq<char>, x: Seq<char>, a: Seq<char>, y: Seq<char>) -> bool {
    s == x + a + y
}

/// Whether a text is two others in their order, with something before, between and behind.
pub open spec fn framed_two(
    s: Seq<char>,
    x: Seq<char>,
    a: Seq<char>,
    y: Seq<char>,
    b: Seq<char>,
    z: Seq<char>,
) -> bool {
    s == x + a + y + b + z
}

/// Whether a text is three others in their order, with something before, between and behind.
pub open spec fn framed_three(
    s: Seq<char>,
    x: Seq<char>,
    a: Seq<char>,
    y: Seq<char>,
    b: Seq<char>,
    z: Seq<char>,
    c: Seq<char>,
    w: Seq<char>,
) -> bool {
    s == x + a + y + b + z + c + w
}

/// Whether a text tells another.
pub open spec fn tells_one(s: Seq<char>, a: Seq<char>) -> bool {
    exists|x: Seq<char>, y: Seq<char>| #[trigger] framed_one(s, x, a, y)
}

/// Whether a text tells one thing and another behind it.
pub open spec fn tells_two(s: Seq<char>, a: Seq<char>, b: Seq<char>) -> bool {
    exists|x: Seq<char>, y: Seq<char>, z: Seq<char>| #[trigger] framed_two(s, x, a, y, b, z)
}

/// Whether a text tells three things, one behind another.
pub open spec fn tells_three(s: Seq<char>, a: Seq<char>, b: Seq<char>, c: Seq<char>) -> bool {
    exists|x: Seq<char>, y: Seq<char>, z: Seq<char>, w: Seq<char>| #[trigger]
        framed_three(s, x, a, y, b, z, c, w)
}

/// Why a plugin did not load is told with everything that it is about.
pub proof fn reasons_tell_what_they_are_about(why: Why)
    ensures
        ({
            let told = why.message();
            match why {
                Why::Io(x) => told == x,
                Why::Manifest(x) => tells_one(told, x),
                Why::Lua(x) => told == x,
                Why::MissingDependency(x) => tells_one(told, x),
                Why::IncompatibleDependency { name, required, found } => tells_three(
                    told,
                    name,
                    required,
                    found,
                ),
                Why::MissingExports(x) => tells_one(told, x),
                Why::CrossStateDependency(x) => tells_one(told, x),
                Why::SignatureInvalid(x) => told == x,
                Why::UntrustedSigner(x) => told == x,
                Why::Revoked(x) => told == x,
                Why::Lock(x) => told == x.message(),
                Why::DigestMismatch(x) => tells_one(told, x),
                Why::CapabilityDenied { name, reason } => tells_two(told, name, reason),
                Why::UnknownCapability(x) => tells_one(told, x),
                Why::MissingRock { name, required } => tells_two(told, name, required),
                Why::IncompatibleRock { name, required, found } => tells_three(
                    told,
                    name,
                    required,
                    found,
                ),
                Why::Rocks(x) => told == x,
                Why::DependencyFailed(x) => tells_one(told, x),
                Why::DependencyCycle(x) => tells_one(told, text::joined(x, " -> "@)),
                Why::Panicked(x) => tells_one(told, x),
                _ => true,
            }
        }),
{
    let none = Seq::<char>::empty();
    let told = why.message();
    match why {
        Why::Manifest(x) => {
            assert(told =~= "invalid manifest: "@ + x + none);
            assert(framed_one(told, "invalid manifest: "@, x, none));
        },
        Why::MissingDependency(x) => {
            assert(told =~= "depends on `"@ + x + "`, which was not found"@);
            assert(framed_one(told, "depends on `"@, x, "`, which was not found"@));
        },
        Why::IncompatibleDependency { name, required, found } => {
            assert(told =~= "requires `"@ + name + "` "@ + required + ", but it publishes "@
                + found + none);
            assert(framed_three(
                told,
                "requires `"@,
                name,
                "` "@,
                required,
                ", but it publishes "@,
                found,
                none,
            ));
        },
        Why::MissingExports(x) => {
            assert(told =~= "`"@ + x + "` declares no `exports` table"@);
            assert(framed_one(told, "`"@, x, "` declares no `exports` table"@));
        },
        Why::CrossStateDependency(x) => {
            assert(told =~= "depends on `"@ + x
                + "`, but per-plugin isolation gives each plugin its own Lua state and values cannot cross states"@);
            assert(framed_one(
                told,
                "depends on `"@,
                x,
                "`, but per-plugin isolation gives each plugin its own Lua state and values cannot cross states"@,
            ));
        },
        Why::DigestMismatch(x) => {
            assert(told =~= "`"@ + x + "` changed between verification and loading"@);
            assert(framed_one(told, "`"@, x, "` changed between verification and loading"@));
        },
        Why::CapabilityDenied { name, reason } => {
            assert(told =~= "capability `"@ + name + "` denied: "@ + reason + none);
            assert(framed_two(told, "capability `"@, name, "` denied: "@, reason, none));
        },
        Why::UnknownCapability(x) => {
            assert(told =~= "requests capability `"@ + x + "`, which the host does not offer"@);
            assert(framed_one(
                told,
                "requests capability `"@,
                x,
                "`, which the host does not offer"@,
            ));
        },
        Why::MissingRock { name, required } => {
            assert(told =~= "rock `"@ + name + "` "@ + required + " is not installed"@);
            assert(framed_two(told, "rock `"@, name, "` "@, required, " is not installed"@));
        },
        Why::IncompatibleRock { name, required, found } => {
            assert(told =~= "rock `"@ + name + "` "@ + required + " is installed at "@
                + found + none);
            assert(framed_three(
                told,
                "rock `"@,
                name,
                "` "@,
                required,
                " is installed at "@,
                found,
                none,
            ));
        },
        Why::DependencyFailed(x) => {
            assert(told =~= "skipped because `"@ + x + "` failed to load"@);
            assert(framed_one(told, "skipped because `"@, x, "` failed to load"@));
        },
        Why::DependencyCycle(x) => {
            assert(told =~= "dependency cycle: "@ + text::joined(x, " -> "@) + none);
            assert(framed_one(told, "dependency cycle: "@, text::joined(x, " -> "@), none));
        },
        Why::Panicked(x) => {
            assert(told =~= "the plugin call panicked: "@ + x + none);
            assert(framed_one(told, "the plugin call panicked: "@, x, none));
        },
        _ => {},
    }
}

/// An error is told with the plugin or the capability that it is about, and why.
pub proof fn errors_tell_what_they_are_about(error: Error)
    ensures
        ({
            let told = error.message();
            match error {
                Error::UnknownPlugin(name) => tells_one(told, name@),
                Error::Plugin { plugin, reason } => tells_two(told, plugin@, reason@),
                Error::Lua(message) => told == message@,
                Error::Runtime(err) => told == err.message(),
                Error::Wasm(message) => told == message@,
                Error::Io(message) => told == message@,
                Error::Config(message) => tells_one(told, message@),
                Error::Capability { capability, reason } => tells_two(told, capability@, reason@),
                _ => true,
            }
        }),
{
    let none = Seq::<char>::empty();
    let told = error.message();
    match error {
        Error::UnknownPlugin(name) => {
            assert(told =~= "no plugin named `"@ + name@ + "`"@);
            assert(framed_one(told, "no plugin named `"@, name@, "`"@));
        },
        Error::Plugin { plugin, reason } => {
            assert(told =~= "plugin `"@ + plugin@ + "`: "@ + reason@ + none);
            assert(framed_two(told, "plugin `"@, plugin@, "`: "@, reason@, none));
        },
        Error::Config(message) => {
            assert(told =~= "configuration: "@ + message@ + none);
            assert(framed_one(told, "configuration: "@, message@, none));
        },
        Error::Capability { capability, reason } => {
            assert(told =~= "capability `"@ + capability@ + "`: "@ + reason@ + none);
            assert(framed_two(told, "capability `"@, capability@, "`: "@, reason@, none));
        },
        _ => {},
    }
}

/// What does not match a lockfile is told with its name, what was expected and what was found.
pub proof fn lock_faults_tell_what_differs(fault: LockFault)
    ensures
        ({
            let told = fault.message();
            match fault {
                LockFault::Unlocked(name) => tells_one(told, name),
                LockFault::DigestMismatch { name, expected, found } => tells_three(
                    told,
                    name,
                    expected,
                    found,
                ),
                LockFault::SignerMismatch { name, expected, found } => tells_three(
                    told,
                    name,
                    expected,
                    found,
                ),
                LockFault::VersionMismatch { name, expected, found } => tells_three(
                    told,
                    name,
                    expected,
                    found,
                ),
                LockFault::Malformed(message) => told == message,
            }
        }),
{
    let none = Seq::<char>::empty();
    let told = fault.message();
    match fault {
        LockFault::Unlocked(name) => {
            assert(told =~= "`"@ + name + "` is not in the lockfile"@);
            assert(framed_one(told, "`"@, name, "` is not in the lockfile"@));
        },
        LockFault::DigestMismatch { name, expected, found } => {
            assert(told =~= "`"@ + name + "` is pinned to "@ + expected
                + " but these bytes are "@ + found + none);
            assert(framed_three(
                told,
                "`"@,
                name,
                "` is pinned to "@,
                expected,
                " but these bytes are "@,
                found,
                none,
            ));
        },
        LockFault::SignerMismatch { name, expected, found } => {
            assert(told =~= "`"@ + name + "` is pinned to signer `"@ + expected
                + "` but was signed by "@ + found + none);
            assert(framed_three(
                told,
                "`"@,
                name,
                "` is pinned to signer `"@,
                expected,
                "` but was signed by "@,
                found,
                none,
            ));
        },
        LockFault::VersionMismatch { name, expected, found } => {
            assert(told =~= "`"@ + name + "` is pinned at "@ + expected + " but declares "@
                + found + none);
            assert(framed_three(
                told,
                "`"@,
                name,
                "` is pinned at "@,
                expected,
                " but declares "@,
                found,
                none,
            ));
        },
        _ => {},
    }
}

/// What an index cannot give is told with what was asked for.
pub proof fn index_faults_tell_what_was_asked(fault: IndexFault)
    ensures
        ({
            let told = fault.message();
            match fault {
                IndexFault::UnknownPlugin(name) => tells_one(told, name),
                IndexFault::NoMatch { name, requirement } => tells_two(told, name, requirement),
                IndexFault::Malformed(message) => tells_one(told, message),
                IndexFault::Stale { what, expired } => tells_two(told, what, expired),
                IndexFault::Transport(message) => tells_one(told, message),
            }
        }),
{
    let none = Seq::<char>::empty();
    let told = fault.message();
    match fault {
        IndexFault::UnknownPlugin(name) => {
            assert(told =~= "the index has no plugin `"@ + name + "`"@);
            assert(framed_one(told, "the index has no plugin `"@, name, "`"@));
        },
        IndexFault::NoMatch { name, requirement } => {
            assert(told =~= "no release of `"@ + name + "` satisfies "@ + requirement + none);
            assert(framed_two(
                told,
                "no release of `"@,
                name,
                "` satisfies "@,
                requirement,
                none,
            ));
        },
        IndexFault::Malformed(message) => {
            assert(told =~= "malformed index: "@ + message + none);
            assert(framed_one(told, "malformed index: "@, message, none));
        },
        IndexFault::Stale { what, expired } => {
            assert(told =~= none + what + " expired at "@ + expired
                + "; refusing it rather than trusting a snapshot that may have been withheld"@);
            assert(framed_two(
                told,
                none,
                what,
                " expired at "@,
                expired,
                "; refusing it rather than trusting a snapshot that may have been withheld"@,
            ));
        },
        IndexFault::Transport(message) => {
            assert(told =~= "reaching the index: "@ + message + none);
            assert(framed_one(told, "reaching the index: "@, message, none));
        },
    }
}

/// What a package may not hold is told with what it holds.
pub proof fn package_faults_tell_what_is_wrong(fault: PackageFault)
    ensures
        ({
            let told = fault.message();
            match fault {
                PackageFault::UnsafePath(path) => tells_one(told, path),
                PackageFault::UnsafeEntry { path, kind } => tells_two(told, path, kind),
                PackageFault::DuplicateEntry(path) => tells_one(told, path),
                PackageFault::TooLarge(message) => told == message,
                PackageFault::DigestMismatch { expected, found } => tells_two(
                    told,
                    found,
                    expected,
                ),
                PackageFault::Io(source) => told == source,
            }
        }),
{
    let none = Seq::<char>::empty();
    let told = fault.message();
    match fault {
        PackageFault::UnsafePath(path) => {
            assert(told =~= "`"@ + path
                + "` would be written outside the destination directory"@);
            assert(framed_one(
                told,
                "`"@,
                path,
                "` would be written outside the destination directory"@,
            ));
        },
        PackageFault::UnsafeEntry { path, kind } => {
            assert(told =~= "`"@ + path + "` is a "@ + kind
                + ", which a plugin package may not contain"@);
            assert(framed_two(
                told,
                "`"@,
                path,
                "` is a "@,
                kind,
                ", which a plugin package may not contain"@,
            ));
        },
        PackageFault::DuplicateEntry(path) => {
            assert(told =~= "`"@ + path + "` appears more than once in the archive"@);
            assert(framed_one(told, "`"@, path, "` appears more than once in the archive"@));
        },
        PackageFault::DigestMismatch { expected, found } => {
            assert(told =~= "these bytes are "@ + found + ", not the expected "@ + expected
                + none);
            assert(framed_two(
                told,
                "these bytes are "@,
                found,
                ", not the expected "@,
                expected,
                none,
            ));
        },
        _ => {},
    }
}

/// A change is told with its name, what was before and what is after, in that order.
pub proof fn changes_are_told_from_before_to_after(diff: Diff)
    ensures
        ({
            let told = diff.line();
            match diff {
                Diff::CapabilityAdded { name } => tells_one(told, name),
                Diff::CapabilityRemoved { name } => tells_one(told, name),
                Diff::CapabilityParams { name, before, after, .. } => tells_three(
                    told,
                    name,
                    before,
                    after,
                ),
                Diff::CapabilityOptionality { name, before, after } => tells_three(
                    told,
                    name,
                    optionality(before),
                    optionality(after),
                ),
                Diff::DependencyAdded { name, requirement } => tells_two(told, name, requirement),
                Diff::DependencyRemoved { name } => tells_one(told, name),
                Diff::DependencyChanged { name, before, after } => tells_three(
                    told,
                    name,
                    before,
                    after,
                ),
                Diff::RockChanged { name, before, after } => tells_three(told, name, before, after),
                Diff::TypeChanged { before, after } => tells_two(
                    told,
                    runtime_text(before),
                    runtime_text(after),
                ),
                Diff::BudgetChanged { before, after } => tells_two(
                    told,
                    budget_text(before),
                    budget_text(after),
                ),
                Diff::RockAdded { name, requirement } => tells_two(told, name, requirement),
                Diff::RockRemoved { name } => tells_one(told, name),
                Diff::EntryChanged { before, after } => tells_two(told, before, after),
                Diff::SignerChanged { before, after } => tells_two(told, before, after),
                Diff::NotNewer { before, after } => tells_two(told, after, before),
                _ => true,
            }
        }),
{
    let none = Seq::<char>::empty();
    let told = diff.line();
    match diff {
        Diff::CapabilityAdded { name } => {
            assert(told =~= "+ capability `"@ + name + "`"@);
            assert(framed_one(told, "+ capability `"@, name, "`"@));
        },
        Diff::CapabilityRemoved { name } => {
            assert(told =~= "- capability `"@ + name + "`"@);
            assert(framed_one(told, "- capability `"@, name, "`"@));
        },
        Diff::CapabilityParams { name, before, after, narrowed } => {
            assert(told =~= marker(narrowed) + " capability `"@ + name + "`: "@ + before
                + " -> "@ + after + none);
            assert(framed_three(
                told,
                marker(narrowed) + " capability `"@,
                name,
                "`: "@,
                before,
                " -> "@,
                after,
                none,
            ));
        },
        Diff::CapabilityOptionality { name, before, after } => {
            assert(told =~= "~ capability `"@ + name + "`: "@ + optionality(before) + " -> "@
                + optionality(after) + none);
            assert(framed_three(
                told,
                "~ capability `"@,
                name,
                "`: "@,
                optionality(before),
                " -> "@,
                optionality(after),
                none,
            ));
        },
        Diff::DependencyAdded { name, requirement } => {
            assert(told =~= "+ dependency `"@ + name + "` "@ + requirement + none);
            assert(framed_two(told, "+ dependency `"@, name, "` "@, requirement, none));
        },
        Diff::DependencyRemoved { name } => {
            assert(told =~= "- dependency `"@ + name + "`"@);
            assert(framed_one(told, "- dependency `"@, name, "`"@));
        },
        Diff::DependencyChanged { name, before, after } => {
            assert(told =~= "~ dependency `"@ + name + "`: "@ + before + " -> "@ + after
                + none);
            assert(framed_three(
                told,
                "~ dependency `"@,
                name,
                "`: "@,
                before,
                " -> "@,
                after,
                none,
            ));
        },
        Diff::RockChanged { name, before, after } => {
            assert(told =~= "~ rock `"@ + name + "`: "@ + before + " -> "@ + after
                + " (unsigned, outside the sandbox)"@);
            assert(framed_three(
                told,
                "~ rock `"@,
                name,
                "`: "@,
                before,
                " -> "@,
                after,
                " (unsigned, outside the sandbox)"@,
            ));
        },
        Diff::TypeChanged { before, after } => {
            assert(told =~= "~ type: "@ + runtime_text(before) + " -> "@
                + runtime_text(after) + none);
            assert(framed_two(
                told,
                "~ type: "@,
                runtime_text(before),
                " -> "@,
                runtime_text(after),
                none,
            ));
        },
        Diff::BudgetChanged { before, after } => {
            assert(told =~= "~ budget: "@ + budget_text(before) + " -> "@
                + budget_text(after) + none);
            assert(framed_two(
                told,
                "~ budget: "@,
                budget_text(before),
                " -> "@,
                budget_text(after),
                none,
            ));
        },
        Diff::RockAdded { name, requirement } => {
            assert(told =~= "+ rock `"@ + name + "` "@ + requirement
                + " (unsigned, outside the sandbox)"@);
            assert(framed_two(
                told,
                "+ rock `"@,
                name,
                "` "@,
                requirement,
                " (unsigned, outside the sandbox)"@,
            ));
        },
        Diff::RockRemoved { name } => {
            assert(told =~= "- rock `"@ + name + "`"@);
            assert(framed_one(told, "- rock `"@, name, "`"@));
        },
        Diff::EntryChanged { before, after } => {
            assert(told =~= "! entry: "@ + before + " -> "@ + after + none);
            assert(framed_two(told, "! entry: "@, before, " -> "@, after, none));
        },
        Diff::SignerChanged { before, after } => {
            assert(told =~= "! signer: "@ + before + " -> "@ + after + none);
            assert(framed_two(told, "! signer: "@, before, " -> "@, after, none));
        },
        Diff::NotNewer { before, after } => {
            assert(told =~= "! version "@ + after + " does not follow the installed "@
                + before + none);
            assert(framed_two(
                told,
                "! version "@,
                after,
                " does not follow the installed "@,
                before,
                none,
            ));
        },
        _ => {},
    }
}

/// What a registry cannot do is told with what it is about.
pub proof fn registry_errors_tell_what_they_are_about(error: RegistryError)
    ensures
        ({
            let told = error.message();
            match error {
                RegistryError::Io { path, source } => tells_two(told, path@, source@),
                RegistryError::UnknownPlugin(name) => tells_one(told, name@),
                RegistryError::Reload(failure) => tells_one(told, failure@.message()),
                RegistryError::Lua(source) => tells_one(told, source@),
                RegistryError::Rocks(source) => tells_one(told, source@),
            }
        }),
{
    let none = Seq::<char>::empty();
    let told = error.message();
    match error {
        RegistryError::Io { path, source } => {
            assert(told =~= "reading `"@ + path@ + "`: "@ + source@ + none);
            assert(framed_two(told, "reading `"@, path@, "`: "@, source@, none));
        },
        RegistryError::UnknownPlugin(name) => {
            assert(told =~= "no plugin named `"@ + name@ + "`"@);
            assert(framed_one(told, "no plugin named `"@, name@, "`"@));
        },
        RegistryError::Reload(failure) => {
            assert(told =~= "reloading "@ + failure@.message() + none);
            assert(framed_one(told, "reloading "@, failure@.message(), none));
        },
        RegistryError::Lua(source) => {
            assert(told =~= "creating a plugin state: "@ + source@ + none);
            assert(framed_one(told, "creating a plugin state: "@, source@, none));
        },
        RegistryError::Rocks(source) => {
            assert(told =~= "luarocks: "@ + source@ + none);
            assert(framed_one(told, "luarocks: "@, source@, none));
        },
    }
}

/// A failure is told with the plugin, where it stands and why.
pub proof fn failures_tell_name_place_and_reason(failure: Failed)
    ensures
        tells_three(failure.message(), failure.name, failure.dir, failure.reason.message()),
{
    let none = Seq::<char>::empty();
    let message = failure.message();
    let reason = failure.reason.message();
    assert(message =~= "plugin `"@ + failure.name + "` ("@ + failure.dir + "): "@ + reason + none);
    assert(framed_three(
        message,
        "plugin `"@,
        failure.name,
        "` ("@,
        failure.dir,
        "): "@,
        reason,
        none,
    ));
}

/// A change that widens is marked by a plus or an exclamation mark, and no other is.
pub proof fn what_widens_is_marked(diff: Diff)
    ensures
        diff.line().len() > 0,
        diff.is_wider() <==> diff.line()[0] == '+' || diff.line()[0] == '!',
        !diff.is_wider() <==> diff.line()[0] == '-' || diff.line()[0] == '~',
{
    reveal_strlit("~");
    reveal_strlit("!");
    reveal_strlit("+ capability `");
    reveal_strlit("- capability `");
    reveal_strlit("~ capability `");
    reveal_strlit("+ dependency `");
    reveal_strlit("- dependency `");
    reveal_strlit("~ dependency `");
    reveal_strlit("~ rock `");
    reveal_strlit("~ type: ");
    reveal_strlit("~ budget: ");
    reveal_strlit("~ config");
    reveal_strlit("+ rock `");
    reveal_strlit("- rock `");
    reveal_strlit("! entry: ");
    reveal_strlit("! signer: ");
    reveal_strlit("! version ");
}

} // verus!
