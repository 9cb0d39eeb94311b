//! The composition laws of the facade, proved over the layer-stack model.

use vstd::prelude::*;

use crate::error::ErrModel;
use crate::layer::err_context_of;
use crate::layer::error_neutral;
use crate::layer::lemma_injected_failure;
use crate::layer::lemma_mandatory_context;
use crate::layer::lemma_stack_append;
use crate::layer::lemma_stack_ok;
use crate::layer::ok_transparent;
use crate::layer::stack_result;
use crate::layer::Layer;
use crate::layer::LayerStep;
use crate::layer::OpContext;
use crate::operator::backend_read;
use crate::operator::inner_layers;
use crate::operator::mandatory_stack;
use crate::operator::op_ctx;
use crate::operator::outer_layers;
use crate::operator::read_outcome;
use crate::operator::stat_outcome;
use crate::operator::write_outcome;
use crate::runtime::RuntimeRegistry;
use crate::scheme::Scheme;

verus! {

/// Every mandatory outer layer hands successes and failures through
/// unchanged, and none injects a failure.
pub proof fn lemma_outer_layers_neutral()
    ensures
        forall|i: int| 0 <= i < outer_layers().len() ==> error_neutral(#[trigger] outer_layers()[i]),
        forall|i: int|
            0 <= i < outer_layers().len() ==> ok_transparent(#[trigger] outer_layers()[i]),
{
    assert forall|i: int| 0 <= i < outer_layers().len() implies error_neutral(
        #[trigger] outer_layers()[i],
    ) && ok_transparent(outer_layers()[i]) by {
        if i == 0 || i == 2 || i == 4 {
            assert(outer_layers()[i] == LayerStep::TypeErase);
        } else if i == 1 {
            assert(outer_layers()[i] == LayerStep::Blocking);
        } else {
            assert(outer_layers()[i] == LayerStep::Logging);
        }
    }
}

/// Mandatory bracketing: however the caller layers the instance, the
/// error-context layer stands before every caller-supplied layer, so a
/// failure injected at the innermost point reaches the caller with the
/// operation, path and scheme context present, whatever the user layers
/// and the mandatory outer layers do to it.
pub proof fn lemma_mandatory_bracketing<T>(user: Seq<LayerStep>, c: OpContext, e: ErrModel)
    ensures
        ({
            let stack = inner_layers() + user + outer_layers();
            let out = stack_result::<T>(stack, c, Result::Err(e));
            &&& out is Err
            &&& err_context_of(out).contains(("operation"@, c.op))
            &&& err_context_of(out).contains(("path"@, c.path))
            &&& err_context_of(out).contains(("service"@, c.scheme))
        }),
{
    let stack = inner_layers() + user + outer_layers();
    assert(stack[0] == LayerStep::ErrorContext);
    lemma_mandatory_context::<T>(stack, c, e);
}

/// Clone interchangeability: an operation's outcome is a function of the
/// layer stack, the scheme, the shared store contents and the arguments
/// alone. Clones of one operator carry equal stacks and schemes and share
/// one store, so the same operation on two clones has the same outcome.
pub proof fn lemma_clones_interchangeable(
    s1: Seq<LayerStep>,
    s2: Seq<LayerStep>,
    scheme: Scheme,
    m: Map<Seq<char>, Seq<u8>>,
    path: Seq<char>,
)
    requires
        s1 == s2,
    ensures
        read_outcome(s1, scheme, m, path) == read_outcome(s2, scheme, m, path),
        stat_outcome(s1, scheme, m, path) == stat_outcome(s2, scheme, m, path),
        write_outcome(s1, scheme, path) == write_outcome(s2, scheme, path),
{
}

/// Round trip: through a stack with no failure-injecting layer — the
/// mandatory stack of a freshly finished operator among them — writing
/// succeeds, and reading the written path back yields exactly the bytes
/// written.
pub proof fn lemma_write_then_read(
    stack: Seq<LayerStep>,
    scheme: Scheme,
    m: Map<Seq<char>, Seq<u8>>,
    path: Seq<char>,
    content: Seq<u8>,
)
    requires
        forall|i: int| 0 <= i < stack.len() ==> ok_transparent(#[trigger] stack[i]),
    ensures
        write_outcome(stack, scheme, path) == Result::<(), ErrModel>::Ok(()),
        read_outcome(stack, scheme, m.insert(path, content), path) == Result::<
            Seq<u8>,
            ErrModel,
        >::Ok(content),
{
    lemma_stack_ok(stack, op_ctx("write"@, path, scheme), ());
    assert(m.insert(path, content).dom().contains(path));
    assert(backend_read(m.insert(path, content), path) == Result::<Seq<u8>, ErrModel>::Ok(
        content,
    ));
    lemma_stack_ok(stack, op_ctx("read"@, path, scheme), content);
}

/// The mandatory stack of a freshly finished operator injects no failure.
pub proof fn lemma_mandatory_stack_transparent()
    ensures
        forall|i: int|
            0 <= i < mandatory_stack().len() ==> ok_transparent(#[trigger] mandatory_stack()[i]),
{
    lemma_outer_layers_neutral();
    assert forall|i: int| 0 <= i < mandatory_stack().len() implies ok_transparent(
        #[trigger] mandatory_stack()[i],
    ) by {
        if i < 2 {
            assert(mandatory_stack()[i] == inner_layers()[i]);
        } else {
            assert(mandatory_stack()[i] == outer_layers()[i - 2]);
        }
    }
}

/// A failure-injecting layer dominates: applied after the mandatory inner
/// layers and any other user layers, with the mandatory outer layers
/// outside it, it fails every operation with its own classification — and
/// when the wrapped instance had itself failed, every context pair the
/// inner error-context layer attached is still present on what the caller
/// sees.
pub proof fn lemma_fail_layer_dominates<T>(
    user: Seq<LayerStep>,
    fail: Layer,
    c: OpContext,
    r: Result<T, ErrModel>,
)
    requires
        fail matches Layer::Fail { .. },
    ensures
        ({
            let pre = inner_layers() + user;
            let stack = pre + seq![LayerStep::User(fail)] + outer_layers();
            let out = stack_result(stack, c, r);
            match fail {
                Layer::Fail { kind, message } => {
                    &&& out matches Result::Err(f)
                    &&& f.kind == kind
                    &&& f.message == message@
                    &&& (r matches Result::Err(e) ==> {
                        &&& f.context.contains(("operation"@, c.op))
                        &&& f.context.contains(("path"@, c.path))
                        &&& f.context.contains(("service"@, c.scheme))
                    })
                },
                _ => false,
            }
        }),
{
    let pre = inner_layers() + user;
    lemma_outer_layers_neutral();
    lemma_injected_failure(pre, fail, outer_layers(), c, r);
    match r {
        Result::Err(e) => {
            assert(pre[0] == LayerStep::ErrorContext);
            lemma_mandatory_context::<T>(pre, c, e);
        },
        _ => {},
    }
}

/// Exactly one shared scheduler: starting from a registry that has not
/// created one, a first synchronous resolution (what `resolve` ensures for
/// an absent ambient scheduler) creates exactly one, and a second
/// synchronous resolution (what `resolve` ensures once the shared handle
/// exists) creates none and returns the same handle. An ambient resolution
/// (its first `ensures` clause) never changes the registry at all.
pub proof fn lemma_scheduler_created_once(
    r0: RuntimeRegistry,
    r1: RuntimeRegistry,
    h1: u64,
    r2: RuntimeRegistry,
    h2: u64,
)
    requires
        r0.spec_shared() is None,
        r0.spec_created() < u64::MAX,
        r1.spec_created() == r0.spec_created() + 1,
        r1.spec_shared() == Some(h1),
        r1.spec_shared() matches Some(s) ==> r2 == r1 && h2 == s,
    ensures
        r2.spec_created() == r0.spec_created() + 1,
        r2.spec_shared() == Some(h1),
        h2 == h1,
{
}

/// Splitting at the erasure boundary changes nothing: the outcome of the
/// whole stack is the outer part applied to the inner part's outcome, so
/// re-erasing on every dynamic `layer` call is behavior-preserving.
pub proof fn lemma_erasure_boundary<T>(
    a: Seq<LayerStep>,
    b: Seq<LayerStep>,
    c: OpContext,
    r: Result<T, ErrModel>,
)
    ensures
        stack_result(a + b, c, r) == stack_result(b, c, stack_result(a, c, r)),
{
    lemma_stack_append(a, b, c, r);
}

} // verus!
