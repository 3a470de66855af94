//! Runtime-agnostic plugin backend interface.
//!
//! Every plugin runtime implements [`PluginBackend`] and [`PluginInstance`], so a host can
//! load and call plugins without knowing which engine produced them.

use crate::error::Error;
use crate::manifest::{Manifest, PluginType};
use crate::value::Value;
use vstd::prelude::*;

verus! {

/// A loaded plugin instance, callable by exported function/method name.
pub trait PluginInstance: Send + Sync {
    /// Whether a call may be answered so: anything goes where an instance does not say more.
    open spec fn answers(&self, method: &str, args: &[Value], r: Result<Value, Error>) -> bool {
        true
    }

    /// Calls a method (or exported function) on this plugin and returns the result.
    fn call(&self, method: &str, args: &[Value]) -> (r: Result<Value, Error>)
        ensures
            self.answers(method, args, r),
    ;

    /// Whether the runtime may be labelled so.
    open spec fn labels(&self, r: &str) -> bool {
        true
    }

    /// A human-readable label for the runtime that produced this instance.
    fn runtime(&self) -> (r: &str)
        ensures
            self.labels(r),
    ;
}

/// A loaded plugin, of whatever runtime.
pub struct BoxedInstance {
    pub inner: Box<dyn PluginInstance>,
}

/// A boxed instance is the instance it holds.
impl PluginInstance for BoxedInstance {
    open spec fn answers(&self, method: &str, args: &[Value], r: Result<Value, Error>) -> bool {
        (*self.inner).answers(method, args, r)
    }

    fn call(&self, method: &str, args: &[Value]) -> (r: Result<Value, Error>) {
        self.inner.call(method, args)
    }

    open spec fn labels(&self, r: &str) -> bool {
        (*self.inner).labels(r)
    }

    fn runtime(&self) -> (r: &str) {
        self.inner.runtime()
    }
}

/// A factory for one kind of plugin runtime.
pub trait PluginBackend: Send + Sync {
    /// The type of plugin this backend handles, which never changes.
    open spec fn handles(&self) -> PluginType {
        arbitrary()
    }

    /// The [`PluginType`] this backend handles.
    fn plugin_type(&self) -> (r: PluginType)
        ensures
            r == self.handles(),
    ;

    /// Whether loading a plugin may come to this: anything may where a backend does not say
    /// more.
    open spec fn builds(
        &self,
        manifest: &Manifest,
        dir: &str,
        r: Result<BoxedInstance, Error>,
    ) -> bool {
        true
    }

    /// Loads a plugin from its directory and returns an instance handle.
    fn load(&self, manifest: &Manifest, dir: &str) -> (r: Result<BoxedInstance, Error>)
        ensures
            self.builds(manifest, dir, r),
    ;

    /// Whether loading a plugin from entry bytes may come to this, besides what loading it from
    /// its directory may come to: nothing more may where a backend does not build from bytes.
    open spec fn builds_from(
        &self,
        manifest: &Manifest,
        dir: &str,
        entry_bytes: &[u8],
        r: Result<BoxedInstance, Error>,
    ) -> bool {
        false
    }

    /// Loads a plugin from entry bytes the host has already read and verified against the
    /// plugin's digest, so that what is loaded is what was verified. Unless a backend says
    /// otherwise the bytes are ignored, which is right only where it reads no entry itself.
    fn load_bytes(&self, manifest: &Manifest, dir: &str, entry_bytes: &[u8]) -> (r: Result<
        BoxedInstance,
        Error,
    >)
        ensures
            self.builds_from(manifest, dir, entry_bytes, r) || self.builds(manifest, dir, r),
        default_ensures
            self.builds(manifest, dir, r),
    {
        self.load(manifest, dir)
    }
}

/// A boxed backend is the backend it holds.
impl PluginBackend for Box<dyn PluginBackend> {
    open spec fn handles(&self) -> PluginType {
        (**self).handles()
    }

    fn plugin_type(&self) -> (r: PluginType) {
        (**self).plugin_type()
    }

    open spec fn builds(
        &self,
        manifest: &Manifest,
        dir: &str,
        r: Result<BoxedInstance, Error>,
    ) -> bool {
        (**self).builds(manifest, dir, r)
    }

    fn load(&self, manifest: &Manifest, dir: &str) -> (r: Result<BoxedInstance, Error>) {
        (**self).load(manifest, dir)
    }

    open spec fn builds_from(
        &self,
        manifest: &Manifest,
        dir: &str,
        entry_bytes: &[u8],
        r: Result<BoxedInstance, Error>,
    ) -> bool {
        (**self).builds_from(manifest, dir, entry_bytes, r)
    }

    fn load_bytes(&self, manifest: &Manifest, dir: &str, entry_bytes: &[u8]) -> (r: Result<
        BoxedInstance,
        Error,
    >) {
        (**self).load_bytes(manifest, dir, entry_bytes)
    }
}

/// A registered backend, under the type it handles.
pub struct Slot<B> {
    pub kind: PluginType,
    pub backend: B,
}

/// The first `n` slots without those of a type.
pub open spec fn without_type<B>(list: Seq<Slot<B>>, ty: PluginType, n: int) -> Seq<Slot<B>>
    decreases n,
{
    if n <= 0 {
        Seq::empty()
    } else if list[n - 1].kind == ty {
        without_type(list, ty, n - 1)
    } else {
        without_type(list, ty, n - 1).push(list[n - 1])
    }
}

/// Whether no two slots are of one type.
pub open spec fn one_each<B>(list: Seq<Slot<B>>) -> bool {
    forall|i: int, j: int|
        0 <= i < j < list.len() ==> (#[trigger] list[i]).kind != (#[trigger] list[j]).kind
}

/// Whether one of the first `n` slots is of a type.
pub open spec fn handled<B>(list: Seq<Slot<B>>, ty: PluginType, n: int) -> bool {
    exists|j: int| 0 <= j < n && (#[trigger] list[j]).kind == ty
}

proof fn kept_types<B>(list: Seq<Slot<B>>, ty: PluginType, n: int)
    requires
        one_each(list),
        0 <= n <= list.len(),
    ensures
        one_each(without_type(list, ty, n)),
        forall|k: int|
            0 <= k < without_type(list, ty, n).len() ==> (#[trigger] without_type(
                list,
                ty,
                n,
            )[k]).kind != ty && handled(list, without_type(list, ty, n)[k].kind, n),
    decreases n,
{
    if n > 0 {
        kept_types(list, ty, n - 1);
        let less = without_type(list, ty, n - 1);
        assert forall|k: int| 0 <= k < less.len() implies (#[trigger] less[k]).kind != list[n
            - 1].kind && handled(list, less[k].kind, n) by {
            let j = choose|j: int| 0 <= j < n - 1 && (#[trigger] list[j]).kind == less[k].kind;
            assert(list[j].kind != list[n - 1].kind);
        }
    }
}

/// Whether a registered backend of a plugin's type may load it so.
pub open spec fn may_build(
    list: Seq<Slot<Box<dyn PluginBackend>>>,
    manifest: Manifest,
    r: Result<BoxedInstance, Error>,
) -> bool {
    exists|i: int, dir: &str|
        {
            &&& 0 <= i < list.len()
            &&& list[i].kind == manifest.plugin_type
            &&& dir@ == manifest.dir@
            &&& #[trigger] list[i].backend.builds(&manifest, dir, r)
        }
}

/// A registry of backends, keyed by [`PluginType`]: only the last registration per type is
/// kept.
pub struct BackendRegistry<B: PluginBackend> {
    slots: Vec<Slot<B>>,
}

impl<B: PluginBackend> View for BackendRegistry<B> {
    type V = Seq<Slot<B>>;

    closed spec fn view(&self) -> Seq<Slot<B>> {
        self.slots@
    }
}

impl<B: PluginBackend> BackendRegistry<B> {
    #[verifier::type_invariant]
    closed spec fn valid(self) -> bool {
        one_each(self.slots@)
    }

    /// Creates an empty registry.
    pub fn new() -> (r: Self)
        ensures
            r@.len() == 0,
    {
        BackendRegistry { slots: Vec::new() }
    }

    /// Registers a backend, replacing any previous one for the same plugin type.
    pub fn register(&mut self, backend: B)
        ensures
            final(self)@ == without_type(
                old(self)@,
                backend.handles(),
                old(self)@.len() as int,
            ).push(Slot { kind: backend.handles(), backend }),
    {
        proof {
            use_type_invariant(&*self);
        }
        let kind = backend.plugin_type();
        let ghost was = self.slots@;
        let n: usize = self.slots.len();
        let mut kept: Vec<Slot<B>> = Vec::new();
        let mut rest: Vec<Slot<B>> = Vec::new();
        std::mem::swap(&mut rest, &mut self.slots);
        let mut i: usize = 0;
        while i < n
            invariant
                i <= n,
                n == was.len(),
                rest@ == was.subrange(i as int, n as int),
                kept@ == without_type(was, kind, i as int),
            decreases n - i,
        {
            proof {
                assert(rest@[0] == was[i as int]);
            }
            let next = rest.remove(0);
            proof {
                assert(rest@ =~= was.subrange(i + 1, n as int));
            }
            if next.kind != kind {
                kept.push(next);
            }
            i = i + 1;
        }
        proof {
            kept_types(was, kind, n as int);
        }
        let ghost had = kept@;
        kept.push(Slot { kind, backend });
        proof {
            assert forall|i: int, j: int| 0 <= i < j < kept@.len() implies (#[trigger] kept@[i]).kind
                != (#[trigger] kept@[j]).kind by {
                assert(kept@[i] == had[i]);
                if j < had.len() {
                    assert(kept@[j] == had[j]);
                }
            }
        }
        self.slots = kept;
    }

    /// Finds a backend for the given plugin type, if one is registered.
    pub fn get(&self, ty: &PluginType) -> (r: Option<&B>)
        ensures
            match r {
                Some(backend) => exists|i: int|
                    {
                        &&& 0 <= i < self@.len()
                        &&& (#[trigger] self@[i]).kind == *ty
                        &&& self@[i].backend == *backend
                        &&& !handled(self@, *ty, i)
                    },
                None => !handled(self@, *ty, self@.len() as int),
            },
    {
        let n: usize = self.slots.len();
        let mut i: usize = 0;
        while i < n
            invariant
                n == self.slots.len(),
                i <= n,
                forall|j: int| 0 <= j < i ==> (#[trigger] self@[j]).kind != *ty,
            decreases n - i,
        {
            if self.slots[i].kind == *ty {
                proof {
                    assert(self@[i as int].kind == *ty);
                }
                return Some(&self.slots[i].backend);
            }
            i = i + 1;
        }
        None
    }

    /// Returns `true` when no backends are registered.
    pub fn is_empty(&self) -> (r: bool)
        ensures
            r == (self@.len() == 0),
    {
        self.slots.len() == 0
    }

    /// The number of registered backends.
    pub fn len(&self) -> (r: usize)
        ensures
            r == self@.len(),
    {
        self.slots.len()
    }

    /// All registered backends, in the order they were registered.
    pub fn iter(&self) -> (r: &[Slot<B>])
        ensures
            r@ == self@,
    {
        self.slots.as_slice()
    }
}

impl<B: PluginBackend> Default for BackendRegistry<B> {
    fn default() -> (r: Self)
        ensures
            r@.len() == 0,
    {
        BackendRegistry::new()
    }
}

/// After a registration the type is handled by the backend that was registered, by that one
/// alone, and every other type is handled as before.
pub proof fn last_registration_wins<B>(
    before: Seq<Slot<B>>,
    slot: Slot<B>,
    ty: PluginType,
)
    requires
        one_each(before),
    ensures
        ({
            let after = without_type(before, slot.kind, before.len() as int).push(slot);
            &&& one_each(after)
            &&& handled(after, slot.kind, after.len() as int)
            &&& ty != slot.kind ==> (handled(after, ty, after.len() as int) <==> handled(
                before,
                ty,
                before.len() as int,
            ))
        }),
{
    let n = before.len() as int;
    let kept = without_type(before, slot.kind, n);
    let after = kept.push(slot);
    kept_types(before, slot.kind, n);
    assert(after[kept.len() as int].kind == slot.kind);
    if ty != slot.kind {
        kept_others(before, slot.kind, ty, n);
        if handled(after, ty, after.len() as int) {
            let j = choose|j: int| 0 <= j < after.len() && (#[trigger] after[j]).kind == ty;
            assert(kept[j].kind == ty);
        }
        if handled(kept, ty, kept.len() as int) {
            let j = choose|j: int| 0 <= j < kept.len() && (#[trigger] kept[j]).kind == ty;
            assert(after[j].kind == ty);
        }
    }
}

proof fn kept_others<B>(list: Seq<Slot<B>>, gone: PluginType, ty: PluginType, n: int)
    requires
        0 <= n <= list.len(),
        ty != gone,
    ensures
        handled(without_type(list, gone, n), ty, without_type(list, gone, n).len() as int)
            <==> handled(list, ty, n),
    decreases n,
{
    if n > 0 {
        kept_others(list, gone, ty, n - 1);
        let less = without_type(list, gone, n - 1);
        let here = without_type(list, gone, n);
        if handled(less, ty, less.len() as int) {
            let j = choose|j: int| 0 <= j < less.len() && (#[trigger] less[j]).kind == ty;
            assert(here[j].kind == ty);
        }
        if handled(here, ty, here.len() as int) {
            let j = choose|j: int| 0 <= j < here.len() && (#[trigger] here[j]).kind == ty;
            if j < less.len() {
                assert(less[j].kind == ty);
            }
        }
        if handled(list, ty, n) && !handled(list, ty, n - 1) {
            let j = choose|j: int| 0 <= j < n && (#[trigger] list[j]).kind == ty;
            assert(j == n - 1);
            assert(here[here.len() - 1].kind == ty);
        }
    }
}

} // verus!
