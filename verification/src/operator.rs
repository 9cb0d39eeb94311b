//! Construction and the type-erased facade.
//!
//! A backend is built by a [`Builder`], wrapped by the mandatory inner
//! layers, then by caller-supplied layers under a statically tracked
//! [`OperatorBuilder`], and finished into the shareable [`Operator`]: the
//! single handle every caller holds, whose state is one reference-counted
//! store shared by all of its clones.

use std::sync::Arc;

use vstd::prelude::*;
use vstd::rwlock::RwLock;
use vstd::rwlock::RwLockPredicate;

use crate::config::ConfigMap;
use crate::error::ErrModel;
use crate::error::Error;
use crate::error::ErrorKind;
use crate::layer::apply_stack;
use crate::layer::dup_stack;
use crate::layer::stack_result;
use crate::layer::Layer;
use crate::layer::LayerStep;
use crate::layer::OpContext;
use crate::runtime::RuntimeRegistry;
use crate::scheme::Scheme;
use crate::store::clone_bytes;
use crate::store::Store;
use crate::strutil::is_prefix_of;
use crate::strutil::str_eq;

verus! {

/// Relies on std's `Arc::clone`: the new handle refers to the same
/// allocation as the old one, so both are the same value.
#[verifier::external_body]
fn clone_arc(a: &Arc<RwLock<Store, StorePred>>) -> (r: Arc<RwLock<Store, StorePred>>)
    ensures
        r == *a,
{
    Arc::clone(a)
}

/// What `stat` reports of an entry.
#[derive(Clone, Copy, PartialEq, Eq, Structural, Debug)]
pub struct Metadata {
    pub content_length: usize,
}

/// A capability instance: a built backend and its ordered layer stack,
/// innermost first.
pub struct Accessor {
    pub scheme: Scheme,
    pub store: Store,
    pub stack: Vec<LayerStep>,
}

/// The construction interface every backend satisfies: configuration in, a
/// capability instance or a configuration failure out. `from_map` never
/// performs I/O; `build` consumes the configuration already set.
pub trait Builder: Sized {
    /// The scheme this builder constructs.
    spec fn spec_scheme() -> Scheme;

    /// Whether the configuration set on the builder suffices to build.
    spec fn spec_valid(&self) -> bool;

    /// Whether a configuration mapping holds a sufficient configuration.
    spec fn map_valid(m: Seq<(Seq<char>, Seq<char>)>) -> bool;

    /// A builder with every recognized key of the mapping applied.
    fn from_map(map: &ConfigMap) -> (b: Self)
        ensures
            b.spec_valid() <==> Self::map_valid(map@),
    ;

    /// Produce a fresh capability instance, or a configuration failure
    /// exactly when the configuration is insufficient.
    fn build(self) -> (r: Result<Accessor, Error>)
        ensures
            self.spec_valid() ==> (r matches Result::Ok(a) && a.scheme == Self::spec_scheme()
                && a.store.wf() && a.store@ == Map::<Seq<char>, Seq<u8>>::empty() && a.stack@
                == Seq::<LayerStep>::empty()),
            !self.spec_valid() ==> (r matches Result::Err(e) && e@.kind
                == ErrorKind::ConfigInvalid),
    ;
}

/// The mandatory inner layers, applied before any caller-supplied layer.
pub open spec fn inner_layers() -> Seq<LayerStep> {
    seq![LayerStep::ErrorContext, LayerStep::Complete]
}

/// The mandatory outer layers `finish` applies after every caller-supplied
/// layer: type erasure, then the blocking bridge and logging, each behind
/// its own erasure boundary.
pub open spec fn outer_layers() -> Seq<LayerStep> {
    seq![
        LayerStep::TypeErase,
        LayerStep::Blocking,
        LayerStep::TypeErase,
        LayerStep::Logging,
        LayerStep::TypeErase,
    ]
}

/// The stack of an operator finished with no caller-supplied layers.
pub open spec fn mandatory_stack() -> Seq<LayerStep> {
    inner_layers() + outer_layers()
}

/// The context one operation presents to the layers.
pub open spec fn op_ctx(op: Seq<char>, path: Seq<char>, scheme: Scheme) -> OpContext {
    OpContext { op, path, scheme: scheme.spec_name() }
}

/// The failure a backend raises for an absent path.
pub open spec fn not_found_model() -> ErrModel {
    ErrModel {
        kind: ErrorKind::NotFound,
        message: "path not found"@,
        context: Seq::empty(),
    }
}

/// What reading yields before the layers see it.
pub open spec fn backend_read(m: Map<Seq<char>, Seq<u8>>, path: Seq<char>) -> Result<
    Seq<u8>,
    ErrModel,
> {
    if m.dom().contains(path) {
        Result::Ok(m[path])
    } else {
        Result::Err(not_found_model())
    }
}

/// The outcome of `read` through a given stack on a given store.
pub open spec fn read_outcome(
    stack: Seq<LayerStep>,
    scheme: Scheme,
    m: Map<Seq<char>, Seq<u8>>,
    path: Seq<char>,
) -> Result<Seq<u8>, ErrModel> {
    stack_result(stack, op_ctx("read"@, path, scheme), backend_read(m, path))
}

/// The outcome of `write`: the backend always accepts, so only the layers
/// can fail it.
pub open spec fn write_outcome(stack: Seq<LayerStep>, scheme: Scheme, path: Seq<char>) -> Result<
    (),
    ErrModel,
> {
    stack_result(stack, op_ctx("write"@, path, scheme), Result::Ok(()))
}

/// The outcome of `stat`: the entry's length, or an absent-path failure.
pub open spec fn stat_outcome(
    stack: Seq<LayerStep>,
    scheme: Scheme,
    m: Map<Seq<char>, Seq<u8>>,
    path: Seq<char>,
) -> Result<nat, ErrModel> {
    stack_result(
        stack,
        op_ctx("stat"@, path, scheme),
        if m.dom().contains(path) {
            Result::Ok(m[path].len())
        } else {
            Result::Err(not_found_model())
        },
    )
}

/// The outcome of `delete`: deletion is idempotent, so only the layers can
/// fail it.
pub open spec fn delete_outcome(stack: Seq<LayerStep>, scheme: Scheme, path: Seq<char>) -> Result<
    (),
    ErrModel,
> {
    stack_result(stack, op_ctx("delete"@, path, scheme), Result::Ok(()))
}

/// The outcome of `copy` and `rename` before the layers: the source must
/// exist.
pub open spec fn source_check(m: Map<Seq<char>, Seq<u8>>, from: Seq<char>) -> Result<
    (),
    ErrModel,
> {
    if m.dom().contains(from) {
        Result::Ok(())
    } else {
        Result::Err(not_found_model())
    }
}

/// The outcome of `copy` through a given stack on a given store.
pub open spec fn copy_outcome(
    stack: Seq<LayerStep>,
    scheme: Scheme,
    m: Map<Seq<char>, Seq<u8>>,
    from: Seq<char>,
) -> Result<(), ErrModel> {
    stack_result(stack, op_ctx("copy"@, from, scheme), source_check(m, from))
}

/// The outcome of `rename` through a given stack on a given store.
pub open spec fn rename_outcome(
    stack: Seq<LayerStep>,
    scheme: Scheme,
    m: Map<Seq<char>, Seq<u8>>,
    from: Seq<char>,
) -> Result<(), ErrModel> {
    stack_result(stack, op_ctx("rename"@, from, scheme), source_check(m, from))
}

/// The shape of `list`'s outcome: the backend always succeeds, so only the
/// layers decide between success and which failure.
pub open spec fn list_shape(stack: Seq<LayerStep>, scheme: Scheme, path: Seq<char>) -> Result<
    int,
    ErrModel,
> {
    stack_result(stack, op_ctx("list"@, path, scheme), Result::Ok(0))
}

/// How a byte-valued result corresponds to its outcome model.
pub open spec fn bytes_match(r: Result<Vec<u8>, Error>, out: Result<Seq<u8>, ErrModel>) -> bool {
    match (r, out) {
        (Result::Ok(v), Result::Ok(s)) => v@ == s,
        (Result::Err(e), Result::Err(f)) => e@ == f,
        _ => false,
    }
}

/// How a unit-valued result corresponds to its outcome model.
pub open spec fn unit_match(r: Result<(), Error>, out: Result<(), ErrModel>) -> bool {
    match (r, out) {
        (Result::Ok(_), Result::Ok(_)) => true,
        (Result::Err(e), Result::Err(f)) => e@ == f,
        _ => false,
    }
}

/// How a metadata result corresponds to its outcome model.
pub open spec fn meta_match(r: Result<Metadata, Error>, out: Result<nat, ErrModel>) -> bool {
    match (r, out) {
        (Result::Ok(md), Result::Ok(n)) => md.content_length == n,
        (Result::Err(e), Result::Err(f)) => e@ == f,
        _ => false,
    }
}

/// How a listing corresponds to its outcome shape on a given store: when it
/// succeeds it holds exactly the stored paths under the prefix, free of
/// duplicates; when it fails it fails as the layers decided.
pub open spec fn list_match(
    r: Result<Vec<String>, Error>,
    out: Result<int, ErrModel>,
    m: Map<Seq<char>, Seq<u8>>,
    prefix: Seq<char>,
) -> bool {
    match (r, out) {
        (Result::Ok(keys), Result::Ok(_)) => {
            &&& keys@.map_values(|s: String| s@).no_duplicates()
            &&& forall|t: int|
                0 <= t < keys@.len() ==> m.dom().contains((#[trigger] keys@[t])@) && is_prefix_of(
                    prefix,
                    keys@[t]@,
                )
            &&& forall|k: Seq<char>|
                #[trigger] m.dom().contains(k) && is_prefix_of(prefix, k) ==> keys@.map_values(
                    |s: String| s@,
                ).contains(k)
        },
        (Result::Err(e), Result::Err(f)) => e@ == f,
        _ => false,
    }
}

/// The lock invariant of the shared store: well-formedness.
pub struct StorePred;

impl RwLockPredicate<Store> for StorePred {
    open spec fn inv(self, v: Store) -> bool {
        v.wf()
    }
}

/// The statically tracked composition context: one capability instance,
/// consumed by each `layer` call, finished into an [`Operator`].
pub struct OperatorBuilder {
    accessor: Accessor,
}

impl OperatorBuilder {
    /// The capability instance currently held.
    pub closed spec fn spec_accessor(&self) -> Accessor {
        self.accessor
    }

    /// Wrap a freshly built capability instance with the mandatory inner
    /// layers: error context first, completeness normalization second,
    /// before any caller-supplied layer can see it.
    pub fn new(accessor: Accessor) -> (ob: OperatorBuilder)
        ensures
            ob.spec_accessor().scheme == accessor.scheme,
            ob.spec_accessor().store == accessor.store,
            ob.spec_accessor().stack@ == accessor.stack@ + inner_layers(),
    {
        let mut acc = accessor;
        acc.stack.push(LayerStep::ErrorContext);
        acc.stack.push(LayerStep::Complete);
        proof {
            assert(acc.stack@ =~= accessor.stack@ + inner_layers());
        }
        OperatorBuilder { accessor: acc }
    }

    /// Apply one caller-supplied layer, consuming this context: the held
    /// instance is wrapped, everything else is kept.
    pub fn layer(self, layer: Layer) -> (ob: OperatorBuilder)
        ensures
            ob.spec_accessor().scheme == self.spec_accessor().scheme,
            ob.spec_accessor().store == self.spec_accessor().store,
            ob.spec_accessor().stack@ == self.spec_accessor().stack@.push(LayerStep::User(layer)),
    {
        let OperatorBuilder { accessor } = self;
        let Accessor { scheme, store, mut stack } = accessor;
        stack.push(LayerStep::User(layer));
        OperatorBuilder { accessor: Accessor { scheme, store, stack } }
    }

    /// Finish construction: erase the accumulated concrete type, resolve a
    /// scheduler (the ambient one if the calling context runs inside one,
    /// else the shared one, created on first need), and apply the blocking
    /// bridge and logging outside everything else.
    pub fn finish(self, reg: &mut RuntimeRegistry, ambient: Option<u64>) -> (op: Operator)
        requires
            old(reg).spec_created() < u64::MAX,
            self.spec_accessor().store.wf(),
        ensures
            op.spec_scheme() == self.spec_accessor().scheme,
            op.spec_stack() == self.spec_accessor().stack@ + outer_layers(),
            ambient matches Some(a) ==> *final(reg) == *old(reg) && op.spec_scheduler() == a,
            ambient is None ==> (old(reg).spec_shared() matches Some(s) ==> *final(reg) == *old(
                reg,
            ) && op.spec_scheduler() == s),
            ambient is None && old(reg).spec_shared() is None ==> final(reg).spec_created() == old(
                reg,
            ).spec_created() + 1 && final(reg).spec_shared() == Some(op.spec_scheduler()),
    {
        let OperatorBuilder { accessor } = self;
        let Accessor { scheme, store, mut stack } = accessor;
        let h = reg.resolve(ambient);
        stack.push(LayerStep::TypeErase);
        stack.push(LayerStep::Blocking);
        stack.push(LayerStep::TypeErase);
        stack.push(LayerStep::Logging);
        stack.push(LayerStep::TypeErase);
        proof {
            assert(stack@ =~= self.spec_accessor().stack@ + outer_layers());
        }
        let state = Arc::new(RwLock::<Store, StorePred>::new(store, Ghost(StorePred)));
        Operator { scheme, stack, scheduler: h, state }
    }
}

/// The type-erased facade: the one stable, cloneable handle. All clones
/// share one reference-counted store; the layer stack and scheme are fixed
/// at construction.
pub struct Operator {
    scheme: Scheme,
    stack: Vec<LayerStep>,
    scheduler: u64,
    state: Arc<RwLock<Store, StorePred>>,
}

impl Operator {
    /// The scheme the backend was built from.
    pub closed spec fn spec_scheme(&self) -> Scheme {
        self.scheme
    }

    /// The layer stack, innermost first.
    pub closed spec fn spec_stack(&self) -> Seq<LayerStep> {
        self.stack@
    }

    /// The scheduler handle resolved at `finish`.
    pub closed spec fn spec_scheduler(&self) -> u64 {
        self.scheduler
    }

    /// The scheduler handle this operator's blocking bridge uses.
    pub fn scheduler(&self) -> (h: u64)
        ensures
            h == self.spec_scheduler(),
    {
        self.scheduler
    }

    /// Build a capability instance from a concrete builder and open a
    /// composition context over it.
    pub fn new<B: Builder>(b: B) -> (r: Result<OperatorBuilder, Error>)
        ensures
            b.spec_valid() ==> (r matches Result::Ok(ob) && ob.spec_accessor().scheme
                == B::spec_scheme() && ob.spec_accessor().store.wf() && ob.spec_accessor().store@
                == Map::<Seq<char>, Seq<u8>>::empty() && ob.spec_accessor().stack@
                == inner_layers()),
            !b.spec_valid() ==> (r matches Result::Err(e) && e@.kind == ErrorKind::ConfigInvalid),
    {
        match b.build() {
            Result::Ok(acc) => {
                let ghost stack0 = acc.stack@;
                let ob = OperatorBuilder::new(acc);
                proof {
                    if b.spec_valid() {
                        assert(stack0 + inner_layers() =~= inner_layers());
                    }
                }
                Result::Ok(ob)
            },
            Result::Err(e) => Result::Err(e),
        }
    }

    /// Build from a configuration mapping with a statically known builder
    /// type, and open a composition context.
    pub fn from_map<B: Builder>(map: &ConfigMap) -> (r: Result<OperatorBuilder, Error>)
        ensures
            B::map_valid(map@) ==> (r matches Result::Ok(ob) && ob.spec_accessor().scheme
                == B::spec_scheme() && ob.spec_accessor().store.wf() && ob.spec_accessor().store@
                == Map::<Seq<char>, Seq<u8>>::empty() && ob.spec_accessor().stack@
                == inner_layers()),
            !B::map_valid(map@) ==> (r matches Result::Err(e) && e@.kind
                == ErrorKind::ConfigInvalid),
    {
        let b = B::from_map(map);
        Self::new(b)
    }

    /// Runtime-dispatched construction: look the scheme up in the registry
    /// of compiled-in backends and finish at once. An unknown or disabled
    /// scheme is a reported `Unsupported` failure carrying the scheme as
    /// context; an insufficient configuration is a `ConfigInvalid` failure.
    pub fn via_map(
        scheme: Scheme,
        map: &ConfigMap,
        reg: &mut RuntimeRegistry,
        ambient: Option<u64>,
    ) -> (r: Result<Operator, Error>)
        requires
            old(reg).spec_created() < u64::MAX,
        ensures
            !scheme.spec_enabled() ==> (r matches Result::Err(e) && e@.kind
                == ErrorKind::Unsupported && e@.has_context("scheme"@, scheme.spec_name())),
            scheme == Scheme::Memory ==> r is Ok,
            scheme == Scheme::Fs ==> (r is Ok <==> <crate::services::Fs as Builder>::map_valid(
                map@,
            )),
            scheme.spec_enabled() && r is Err ==> (r matches Result::Err(e) && e@.kind
                == ErrorKind::ConfigInvalid),
            r is Err ==> *final(reg) == *old(reg),
            r matches Result::Ok(op) ==> ({
                &&& op.spec_scheme() == scheme
                &&& op.spec_stack() == mandatory_stack()
                &&& (ambient matches Some(a) ==> *final(reg) == *old(reg) && op.spec_scheduler()
                    == a)
                &&& (ambient is None ==> (old(reg).spec_shared() matches Some(s) ==> *final(reg)
                    == *old(reg) && op.spec_scheduler() == s))
                &&& (ambient is None && old(reg).spec_shared() is None
                    ==> final(reg).spec_created() == old(reg).spec_created() + 1
                    && final(reg).spec_shared() == Some(op.spec_scheduler()))
            }),
    {
        match scheme {
            Scheme::Memory => match Self::from_map::<crate::services::Memory>(map) {
                Result::Ok(ob) => Result::Ok(ob.finish(reg, ambient)),
                Result::Err(e) => Result::Err(e),
            },
            Scheme::Fs => match Self::from_map::<crate::services::Fs>(map) {
                Result::Ok(ob) => Result::Ok(ob.finish(reg, ambient)),
                Result::Err(e) => Result::Err(e),
            },
            _ => {
                let e = Error::new(
                    ErrorKind::Unsupported,
                    "scheme is not enabled or supported",
                ).with_context("scheme", scheme.name());
                proof {
                    assert(e@.context[0] == ("scheme"@, scheme.spec_name()));
                }
                Result::Err(e)
            },
        }
    }

    /// Apply one more layer to the already-erased handle: the held instance
    /// is wrapped and erased again, so the handle type never changes.
    pub fn layer(self, layer: Layer) -> (r: Operator)
        ensures
            r.spec_scheme() == self.spec_scheme(),
            r.spec_scheduler() == self.spec_scheduler(),
            r.spec_stack() == self.spec_stack().push(LayerStep::User(layer)).push(
                LayerStep::TypeErase,
            ),
    {
        let Operator { scheme, mut stack, scheduler, state } = self;
        stack.push(LayerStep::User(layer));
        stack.push(LayerStep::TypeErase);
        Operator { scheme, stack, scheduler, state }
    }

    /// Read the bytes under `path`.
    pub fn read(&self, path: &str) -> (r: Result<Vec<u8>, Error>)
        ensures
            exists|m: Map<Seq<char>, Seq<u8>>|
                #[trigger] bytes_match(
                    r,
                    read_outcome(self.spec_stack(), self.spec_scheme(), m, path@),
                ),
    {
        let (store, handle) = self.state.acquire_write();
        let ghost m = store@;
        let base: Result<Vec<u8>, Error> = match store.get(path) {
            Option::Some(v) => Result::Ok(clone_bytes(v)),
            Option::None => Result::Err(Error::new(ErrorKind::NotFound, "path not found")),
        };
        handle.release_write(store);
        let ghost bm = crate::layer::res_model(base);
        let r = apply_stack(&self.stack, "read", path, self.scheme.name(), base);
        proof {
            let c = op_ctx("read"@, path@, self.spec_scheme());
            let rm = crate::layer::res_model(r);
            let bb = backend_read(m, path@);
            let out = read_outcome(self.spec_stack(), self.spec_scheme(), m, path@);
            if bm is Err {
                assert(bm->Err_0 =~= not_found_model());
                crate::layer::lemma_stack_err::<Vec<u8>>(self.spec_stack(), c, bm->Err_0);
            }
            assert(bm is Ok <==> bb is Ok);
            assert(rm == stack_result(self.spec_stack(), c, bm));
            crate::layer::lemma_stack_parametric::<Vec<u8>, Seq<u8>>(self.spec_stack(), c, bm, bb);
            assert(out == stack_result(self.spec_stack(), c, bb));
            assert(bytes_match(r, read_outcome(self.spec_stack(), self.spec_scheme(), m, path@)));
        }
        r
    }

    /// Store `content` under `path`, replacing any earlier entry.
    pub fn write(&self, path: &str, content: Vec<u8>) -> (r: Result<(), Error>)
        ensures
            unit_match(r, write_outcome(self.spec_stack(), self.spec_scheme(), path@)),
    {
        let (mut store, handle) = self.state.acquire_write();
        store.set(path, content);
        handle.release_write(store);
        let base: Result<(), Error> = Result::Ok(());
        apply_stack(&self.stack, "write", path, self.scheme.name(), base)
    }

    /// The metadata of the entry under `path`: its length.
    pub fn stat(&self, path: &str) -> (r: Result<Metadata, Error>)
        ensures
            exists|m: Map<Seq<char>, Seq<u8>>|
                #[trigger] meta_match(
                    r,
                    stat_outcome(self.spec_stack(), self.spec_scheme(), m, path@),
                ),
    {
        let (store, handle) = self.state.acquire_write();
        let ghost m = store@;
        let base: Result<Metadata, Error> = match store.get(path) {
            Option::Some(v) => Result::Ok(Metadata { content_length: v.len() }),
            Option::None => Result::Err(Error::new(ErrorKind::NotFound, "path not found")),
        };
        handle.release_write(store);
        let ghost bm = crate::layer::res_model(base);
        let r = apply_stack(&self.stack, "stat", path, self.scheme.name(), base);
        proof {
            let c = op_ctx("stat"@, path@, self.spec_scheme());
            let rm = crate::layer::res_model(r);
            let bb: Result<nat, ErrModel> = if m.dom().contains(path@) {
                Result::Ok(m[path@].len())
            } else {
                Result::Err(not_found_model())
            };
            if bm is Err {
                assert(bm->Err_0 =~= not_found_model());
                crate::layer::lemma_stack_err::<Metadata>(self.spec_stack(), c, bm->Err_0);
            }
            assert(bm is Ok <==> bb is Ok);
            assert(rm == stack_result(self.spec_stack(), c, bm));
            crate::layer::lemma_stack_parametric::<Metadata, nat>(self.spec_stack(), c, bm, bb);
            assert(stat_outcome(self.spec_stack(), self.spec_scheme(), m, path@) == stack_result(
                self.spec_stack(),
                c,
                bb,
            ));
            assert(meta_match(r, stat_outcome(self.spec_stack(), self.spec_scheme(), m, path@)));
        }
        r
    }

    /// Drop the entry under `path`; deleting an absent path succeeds.
    pub fn delete(&self, path: &str) -> (r: Result<(), Error>)
        ensures
            unit_match(r, delete_outcome(self.spec_stack(), self.spec_scheme(), path@)),
    {
        let (mut store, handle) = self.state.acquire_write();
        store.remove(path);
        handle.release_write(store);
        let base: Result<(), Error> = Result::Ok(());
        apply_stack(&self.stack, "delete", path, self.scheme.name(), base)
    }

    /// List the stored paths opening with `path`.
    pub fn list(&self, path: &str) -> (r: Result<Vec<String>, Error>)
        ensures
            exists|m: Map<Seq<char>, Seq<u8>>|
                #[trigger] list_match(
                    r,
                    list_shape(self.spec_stack(), self.spec_scheme(), path@),
                    m,
                    path@,
                ),
    {
        let (store, handle) = self.state.acquire_write();
        let ghost m = store@;
        let keys = store.keys_with_prefix(path);
        handle.release_write(store);
        let base: Result<Vec<String>, Error> = Result::Ok(keys);
        let r = apply_stack(&self.stack, "list", path, self.scheme.name(), base);
        proof {
            let c = op_ctx("list"@, path@, self.spec_scheme());
            crate::layer::lemma_stack_parametric::<Vec<String>, int>(
                self.spec_stack(),
                c,
                crate::layer::res_model(base),
                Result::Ok(0),
            );
            assert(list_match(r, list_shape(self.spec_stack(), self.spec_scheme(), path@), m, path@));
        }
        r
    }

    /// Copy the entry under `from` to `to`; the source must exist.
    pub fn copy(&self, from: &str, to: &str) -> (r: Result<(), Error>)
        ensures
            exists|m: Map<Seq<char>, Seq<u8>>|
                #[trigger] unit_match(
                    r,
                    copy_outcome(self.spec_stack(), self.spec_scheme(), m, from@),
                ),
    {
        let (mut store, handle) = self.state.acquire_write();
        let ghost m = store@;
        let bytes = match store.get(from) {
            Option::Some(v) => Option::Some(clone_bytes(v)),
            Option::None => Option::None,
        };
        let base: Result<(), Error> = match bytes {
            Option::Some(b) => {
                store.set(to, b);
                Result::Ok(())
            },
            Option::None => Result::Err(Error::new(ErrorKind::NotFound, "path not found")),
        };
        handle.release_write(store);
        let r = apply_stack(&self.stack, "copy", from, self.scheme.name(), base);
        proof {
            if base is Err {
                assert(base->Err_0@ =~= not_found_model());
            }
            assert(unit_match(r, copy_outcome(self.spec_stack(), self.spec_scheme(), m, from@)));
        }
        r
    }

    /// Move the entry under `from` to `to`; the source must exist, and
    /// renaming a path onto itself leaves it in place.
    pub fn rename(&self, from: &str, to: &str) -> (r: Result<(), Error>)
        ensures
            exists|m: Map<Seq<char>, Seq<u8>>|
                #[trigger] unit_match(
                    r,
                    rename_outcome(self.spec_stack(), self.spec_scheme(), m, from@),
                ),
    {
        let (mut store, handle) = self.state.acquire_write();
        let ghost m = store@;
        let bytes = match store.get(from) {
            Option::Some(v) => Option::Some(clone_bytes(v)),
            Option::None => Option::None,
        };
        let base: Result<(), Error> = match bytes {
            Option::Some(b) => {
                if !str_eq(from, to) {
                    store.set(to, b);
                    store.remove(from);
                }
                Result::Ok(())
            },
            Option::None => Result::Err(Error::new(ErrorKind::NotFound, "path not found")),
        };
        handle.release_write(store);
        let r = apply_stack(&self.stack, "rename", from, self.scheme.name(), base);
        proof {
            if base is Err {
                assert(base->Err_0@ =~= not_found_model());
            }
            assert(unit_match(r, rename_outcome(self.spec_stack(), self.spec_scheme(), m, from@)));
        }
        r
    }
}

impl Clone for Operator {
    /// A clone shares the same store and carries the same stack, scheme and
    /// scheduler: the two handles are interchangeable.
    fn clone(&self) -> (r: Self)
        ensures
            r.spec_scheme() == self.spec_scheme(),
            r.spec_stack() == self.spec_stack(),
            r.spec_scheduler() == self.spec_scheduler(),
    {
        Operator {
            scheme: self.scheme,
            stack: dup_stack(&self.stack),
            scheduler: self.scheduler,
            state: clone_arc(&self.state),
        }
    }
}

} // verus!
