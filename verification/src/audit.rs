//! What every plugin under a root asks for, read from manifests alone.

use crate::capability::{requests, requests_of, request_views, CapabilityRequest, Request};
use crate::failure::{FailureReason, LoadFailure};
use crate::manifest::Manifest;
use crate::resolve::holds_name;
use crate::loader::ruled_by_files;
use crate::registry::Registry;
use crate::signature::{DirectoryDigest, Signer, SignerModel};
use crate::text;
use crate::trust::Listing;
use vstd::prelude::*;

verus! {

/// One plugin's declared requests.
#[derive(Debug, PartialEq)]
pub struct PluginAudit {
    /// Plugin name.
    pub name: String,
    /// Where it was discovered.
    pub dir: String,
    /// Capabilities it declares.
    pub requests: Vec<CapabilityRequest>,
    /// Who signed it, established without running any of its code.
    pub signer: Signer,
}

/// What every plugin under a root asks for.
#[derive(Debug, PartialEq)]
pub struct Audit {
    /// One entry per discovered plugin.
    pub plugins: Vec<PluginAudit>,
    /// Labels of values installed ambiently, which reach every plugin.
    pub ambient: Vec<String>,
    /// Capability names the host is able to provide.
    pub offered: Vec<String>,
    /// Plugin directories whose manifest could not be read.
    pub unreadable: Vec<LoadFailure>,
}

/// The signer an audit reports: a plugin that would not be admitted counts as unsigned.
pub fn audit_signer(admission: Result<(Signer, Option<DirectoryDigest>), FailureReason>) -> (r:
    Signer)
    ensures
        r@ == match admission {
            Ok((signer, _)) => signer@,
            Err(_) => None,
        },
{
    match admission {
        Ok((signer, _)) => signer,
        Err(_) => Signer::Unsigned,
    }
}

/// The requests of the first `n` plugins that name a capability the host does not offer.
pub open spec fn unmet_upto(plugins: Seq<PluginAudit>, offered: Seq<Seq<char>>, n: int) -> Seq<
    Request,
>
    decreases n,
{
    if n <= 0 {
        Seq::empty()
    } else {
        unmet_upto(plugins, offered, n - 1) + unmet_of(
            request_views(plugins[n - 1].requests@),
            offered,
            plugins[n - 1].requests@.len() as int,
        )
    }
}

/// The requests among the first `n` that name a capability the host does not offer.
pub open spec fn unmet_of(list: Seq<Request>, offered: Seq<Seq<char>>, n: int) -> Seq<Request>
    decreases n,
{
    if n <= 0 {
        Seq::empty()
    } else if offered.contains(list[n - 1].name) {
        unmet_of(list, offered, n - 1)
    } else {
        unmet_of(list, offered, n - 1).push(list[n - 1])
    }
}

impl Audit {
    /// Reports what every discovered plugin requests, given who signed each. Nothing of a
    /// plugin is run: manifests are static.
    pub fn report(
        manifests: &Vec<Manifest>,
        signers: &Vec<Signer>,
        unreadable: Vec<LoadFailure>,
        ambient: Vec<String>,
        offered: Vec<String>,
    ) -> (r: Audit)
        requires
            signers@.len() == manifests@.len(),
            forall|i: int| 0 <= i < manifests@.len() ==> (#[trigger] manifests@[i]).wf(),
        ensures
            r.plugins@.len() == manifests@.len(),
            forall|i: int|
                0 <= i < r.plugins@.len() ==> {
                    &&& (#[trigger] r.plugins@[i]).name@ == manifests@[i].name@
                    &&& r.plugins@[i].dir@ == manifests@[i].dir@
                    &&& r.plugins@[i].signer@ == signers@[i]@
                    &&& request_views(r.plugins@[i].requests@) == requests_of(
                        manifests@[i],
                        signers@[i]@,
                    )
                },
            r.ambient@ == ambient@,
            r.offered@ == offered@,
            r.unreadable@ == unreadable@,
    {
        let n: usize = manifests.len();
        let mut plugins: Vec<PluginAudit> = Vec::new();
        let mut i: usize = 0;
        while i < n
            invariant
                n == manifests.len(),
                signers@.len() == n,
                i <= n,
                forall|k: int| 0 <= k < manifests@.len() ==> (#[trigger] manifests@[k]).wf(),
                plugins@.len() == i,
                forall|k: int|
                    0 <= k < i ==> {
                        &&& (#[trigger] plugins@[k]).name@ == manifests@[k].name@
                        &&& plugins@[k].dir@ == manifests@[k].dir@
                        &&& plugins@[k].signer@ == signers@[k]@
                        &&& request_views(plugins@[k].requests@) == requests_of(
                            manifests@[k],
                            signers@[k]@,
                        )
                    },
            decreases n - i,
        {
            let manifest = &manifests[i];
            let signer = &signers[i];
            plugins.push(
                PluginAudit {
                    name: manifest.name.clone(),
                    dir: manifest.dir.clone(),
                    requests: requests(manifest, signer),
                    signer: signer.clone(),
                },
            );
            i = i + 1;
        }
        Audit { plugins, ambient, offered, unreadable }
    }

    /// Requests naming a capability the host does not offer.
    pub fn unsatisfiable(&self) -> (r: Vec<&CapabilityRequest>)
        ensures
            r@.map_values(|q: &CapabilityRequest| q@) == unmet_upto(
                self.plugins@,
                text::texts(self.offered@),
                self.plugins@.len() as int,
            ),
    {
        let n: usize = self.plugins.len();
        let ghost open = text::texts(self.offered@);
        let mut out: Vec<&CapabilityRequest> = Vec::new();
        let mut i: usize = 0;
        proof {
            assert(out@.map_values(|q: &CapabilityRequest| q@) =~= Seq::<Request>::empty());
        }
        while i < n
            invariant
                n == self.plugins.len(),
                i <= n,
                open == text::texts(self.offered@),
                out@.map_values(|q: &CapabilityRequest| q@) == unmet_upto(
                    self.plugins@,
                    open,
                    i as int,
                ),
            decreases n - i,
        {
            let list = &self.plugins[i].requests;
            let ghost views = request_views(list@);
            let ghost done = unmet_upto(self.plugins@, open, i as int);
            let m: usize = list.len();
            let mut k: usize = 0;
            proof {
                assert(done + unmet_of(views, open, 0) =~= done);
            }
            while k < m
                invariant
                    m == list.len(),
                    k <= m,
                    i < n,
                    n == self.plugins.len(),
                    open == text::texts(self.offered@),
                    *list == self.plugins@[i as int].requests,
                    views == request_views(list@),
                    out@.map_values(|q: &CapabilityRequest| q@) == done + unmet_of(
                        views,
                        open,
                        k as int,
                    ),
                decreases m - k,
            {
                let request = &list[k];
                let ghost had = out@.map_values(|q: &CapabilityRequest| q@);
                let ghost part = unmet_of(views, open, k as int);
                proof {
                    assert(views[k as int] == request@);
                }
                if !holds_name(&self.offered, request.name.as_str()) {
                    out.push(request);
                    proof {
                        assert(out@.map_values(|q: &CapabilityRequest| q@) =~= had.push(request@));
                        assert((done + part).push(request@) =~= done + part.push(request@));
                    }
                }
                k = k + 1;
            }
            i = i + 1;
        }
        out
    }
}

/// Whether the signer an audit reports of a plugin is this: who signed it, where it would be
/// admitted.
pub open spec fn signer_seen<I, E, L: Fn(&Manifest) -> Listing>(
    registry: Registry<I, E>,
    files: L,
    manifest: Manifest,
    signer: SignerModel,
) -> bool {
    exists|admission: Result<(Signer, Option<DirectoryDigest>), FailureReason>| #[trigger]
        ruled_by_files(registry, files, manifest, admission) && signer == match admission {
            Ok((signer, _)) => signer@,
            Err(_) => None,
        }
}

impl<I, E> Registry<I, E> {
    /// Reports what every discovered plugin asks for, and who signed it, without running any
    /// of it.
    pub fn audit<L: Fn(&Manifest) -> Listing>(
        &self,
        manifests: &Vec<Manifest>,
        unreadable: Vec<LoadFailure>,
        ambient: Vec<String>,
        offered: Vec<String>,
        files: &L,
    ) -> (r: Audit)
        requires
            self.wf(),
            forall|i: int| 0 <= i < manifests@.len() ==> (#[trigger] manifests@[i]).wf(),
            forall|m: Manifest| call_requires(*files, (&m,)),
        ensures
            r.plugins@.len() == manifests@.len(),
            forall|i: int|
                0 <= i < r.plugins@.len() ==> {
                    &&& (#[trigger] r.plugins@[i]).name@ == manifests@[i].name@
                    &&& r.plugins@[i].dir@ == manifests@[i].dir@
                    &&& signer_seen(*self, *files, manifests@[i], r.plugins@[i].signer@)
                    &&& request_views(r.plugins@[i].requests@) == requests_of(
                        manifests@[i],
                        r.plugins@[i].signer@,
                    )
                },
            r.ambient@ == ambient@,
            r.offered@ == offered@,
            r.unreadable@ == unreadable@,
    {
        let n: usize = manifests.len();
        let mut signers: Vec<Signer> = Vec::new();
        let mut i: usize = 0;
        while i < n
            invariant
                i <= n,
                n == manifests.len(),
                self.wf(),
                forall|m: Manifest| call_requires(*files, (&m,)),
                signers@.len() == i,
                forall|k: int|
                    0 <= k < i ==> signer_seen(
                        *self,
                        *files,
                        manifests@[k],
                        (#[trigger] signers@[k])@,
                    ),
            decreases n - i,
        {
            let manifest = &manifests[i];
            let listing = files(manifest);
            let ghost read = listing;
            let admission = self.verify_plugin(manifest, listing);
            let ghost ruling = admission;
            let signer = audit_signer(admission);
            proof {
                assert(call_ensures(*files, (manifest,), read));
                assert(ruled_by_files(*self, *files, *manifest, ruling));
                assert(signer_seen(*self, *files, *manifest, signer@));
            }
            signers.push(signer);
            i = i + 1;
        }
        Audit::report(manifests, &signers, unreadable, ambient, offered)
    }
}

} // verus!
