//! Behavior transforms and the ordered layer stack.
//!
//! A capability instance is a backend wrapped by an ordered stack of layers,
//! innermost first. Every layer preserves the full operation set; it may
//! enrich or reclassify a failure on its way out, but never discards one.
//! The stack's effect on one operation's outcome is the fold
//! [`stack_result`], which every executable path is proved to match.

use vstd::prelude::*;

use crate::error::ErrModel;
use crate::error::Error;
use crate::error::ErrorKind;

verus! {

/// A caller-supplied behavior transform.
pub enum Layer {
    /// Delegates untouched.
    Noop,
    /// Attaches one context pair to every failure passing through.
    Annotate { key: String, value: String },
    /// Fails every operation with the given classification, keeping the
    /// context the inner instance had already attached.
    Fail { kind: ErrorKind, message: String },
}

/// One entry of a capability instance's layer stack, innermost first.
///
/// The first five are the mandatory layers the construction path applies in
/// fixed order; `User` carries a caller-supplied [`Layer`].
pub enum LayerStep {
    /// Mandatory, innermost: attaches operation, path and scheme context to
    /// every failure before anything else sees it.
    ErrorContext,
    /// Mandatory, second: normalizes completeness semantics.
    Complete,
    /// Erases the concrete instance type into the uniform handle.
    TypeErase,
    /// Bridges synchronous callers onto the resolved scheduler.
    Blocking,
    /// Outermost mandatory behavior: observes every operation.
    Logging,
    /// A caller-supplied transform.
    User(Layer),
}

/// What one operation looks like to the layers: operation name, primary
/// path, and the scheme the backend was built from.
#[verifier::ext_equal]
pub struct OpContext {
    pub op: Seq<char>,
    pub path: Seq<char>,
    pub scheme: Seq<char>,
}

/// The model of an operation outcome: the success value untouched, a
/// failure abstracted to its model.
pub open spec fn res_model<T>(r: Result<T, Error>) -> Result<T, ErrModel> {
    match r {
        Result::Ok(v) => Result::Ok(v),
        Result::Err(e) => Result::Err(e@),
    }
}

/// The context pairs a result carries: a success carries none.
pub open spec fn err_context_of<T>(r: Result<T, ErrModel>) -> Seq<(Seq<char>, Seq<char>)> {
    match r {
        Result::Ok(_) => Seq::empty(),
        Result::Err(e) => e.context,
    }
}

/// The effect of one caller-supplied transform on an outcome.
pub open spec fn user_step_result<T>(u: Layer, r: Result<T, ErrModel>) -> Result<T, ErrModel> {
    match u {
        Layer::Noop => r,
        Layer::Annotate { key, value } => match r {
            Result::Ok(v) => Result::Ok(v),
            Result::Err(e) => Result::Err(
                ErrModel {
                    kind: e.kind,
                    message: e.message,
                    context: e.context.push((key@, value@)),
                },
            ),
        },
        Layer::Fail { kind, message } => Result::Err(
            ErrModel { kind, message: message@, context: err_context_of(r) },
        ),
    }
}

/// The effect of one stack entry on an outcome.
pub open spec fn step_result<T>(l: LayerStep, c: OpContext, r: Result<T, ErrModel>) -> Result<
    T,
    ErrModel,
> {
    match l {
        LayerStep::ErrorContext => match r {
            Result::Ok(v) => Result::Ok(v),
            Result::Err(e) => Result::Err(
                ErrModel {
                    kind: e.kind,
                    message: e.message,
                    context: e.context.push(("operation"@, c.op)).push(("path"@, c.path)).push(
                        ("service"@, c.scheme),
                    ),
                },
            ),
        },
        LayerStep::Complete => r,
        LayerStep::TypeErase => r,
        LayerStep::Blocking => r,
        LayerStep::Logging => r,
        LayerStep::User(u) => user_step_result(u, r),
    }
}

/// The effect of a whole stack, applied innermost first.
pub open spec fn stack_result<T>(stack: Seq<LayerStep>, c: OpContext, r: Result<T, ErrModel>) -> Result<
    T,
    ErrModel,
>
    decreases stack.len(),
{
    if stack.len() == 0 {
        r
    } else {
        stack_result(stack.drop_first(), c, step_result(stack.first(), c, r))
    }
}

/// A step that leaves every outcome as it is.
pub open spec fn error_neutral(l: LayerStep) -> bool {
    match l {
        LayerStep::ErrorContext => false,
        LayerStep::Complete => true,
        LayerStep::TypeErase => true,
        LayerStep::Blocking => true,
        LayerStep::Logging => true,
        LayerStep::User(u) => u is Noop,
    }
}

/// A step that hands every success through unchanged.
pub open spec fn ok_transparent(l: LayerStep) -> bool {
    !(l matches LayerStep::User(Layer::Fail { .. }))
}

impl Layer {
    /// An equal copy.
    pub fn dup(&self) -> (r: Layer)
        ensures
            r == *self,
    {
        match self {
            Layer::Noop => Layer::Noop,
            Layer::Annotate { key, value } => Layer::Annotate {
                key: key.clone(),
                value: value.clone(),
            },
            Layer::Fail { kind, message } => Layer::Fail { kind: *kind, message: message.clone() },
        }
    }
}

impl LayerStep {
    /// An equal copy.
    pub fn dup(&self) -> (r: LayerStep)
        ensures
            r == *self,
    {
        match self {
            LayerStep::ErrorContext => LayerStep::ErrorContext,
            LayerStep::Complete => LayerStep::Complete,
            LayerStep::TypeErase => LayerStep::TypeErase,
            LayerStep::Blocking => LayerStep::Blocking,
            LayerStep::Logging => LayerStep::Logging,
            LayerStep::User(u) => LayerStep::User(u.dup()),
        }
    }
}

/// An equal copy of a layer stack.
pub fn dup_stack(v: &Vec<LayerStep>) -> (r: Vec<LayerStep>)
    ensures
        r@ == v@,
{
    let mut r: Vec<LayerStep> = Vec::new();
    let mut i: usize = 0;
    while i < v.len()
        invariant
            i <= v.len(),
            r@ == v@.subrange(0, i as int),
        decreases v.len() - i,
    {
        r.push(v[i].dup());
        proof {
            assert(r@ =~= v@.subrange(0, i + 1));
        }
        i = i + 1;
    }
    proof {
        assert(r@ =~= v@);
    }
    r
}

/// A prefix stays a prefix when the longer sequence grows.
pub proof fn lemma_prefix_push<A>(a: Seq<A>, b: Seq<A>, x: A)
    requires
        a.is_prefix_of(b),
    ensures
        a.is_prefix_of(b.push(x)),
{
    assert(b.push(x).subrange(0, a.len() as int) =~= b.subrange(0, a.len() as int));
}

/// Prefixes compose.
pub proof fn lemma_prefix_trans<A>(a: Seq<A>, b: Seq<A>, c: Seq<A>)
    requires
        a.is_prefix_of(b),
        b.is_prefix_of(c),
    ensures
        a.is_prefix_of(c),
{
    assert(a =~= c.subrange(0, a.len() as int)) by {
        assert(forall|i: int|
            0 <= i < a.len() ==> a[i] == b.subrange(0, a.len() as int)[i] && b[i] == c.subrange(
                0,
                b.len() as int,
            )[i]);
    }
}

/// Whatever a prefix holds, the longer sequence holds.
pub proof fn lemma_prefix_contains<A>(a: Seq<A>, b: Seq<A>, x: A)
    requires
        a.is_prefix_of(b),
        a.contains(x),
    ensures
        b.contains(x),
{
    let i = choose|i: int| 0 <= i < a.len() && a[i] == x;
    assert(b.subrange(0, a.len() as int)[i] == b[i]);
}

/// One step never swallows a failure, and keeps the context already
/// attached as a prefix of the context it hands out.
pub proof fn lemma_step_err<T>(l: LayerStep, c: OpContext, e: ErrModel)
    ensures
        step_result::<T>(l, c, Result::Err(e)) is Err,
        e.context.is_prefix_of(err_context_of(step_result::<T>(l, c, Result::Err(e)))),
{
    assert(e.context.is_prefix_of(e.context)) by {
        assert(e.context.subrange(0, e.context.len() as int) =~= e.context);
    }
    match l {
        LayerStep::ErrorContext => {
            lemma_prefix_push(e.context, e.context, ("operation"@, c.op));
            lemma_prefix_push(
                e.context,
                e.context.push(("operation"@, c.op)),
                ("path"@, c.path),
            );
            lemma_prefix_push(
                e.context,
                e.context.push(("operation"@, c.op)).push(("path"@, c.path)),
                ("service"@, c.scheme),
            );
        },
        LayerStep::User(u) => match u {
            Layer::Annotate { key, value } => {
                lemma_prefix_push(e.context, e.context, (key@, value@));
            },
            _ => {},
        },
        _ => {},
    }
}

/// A whole stack never swallows a failure (failures are never silently
/// discarded by composition), and every context pair attached below stays
/// attached: the incoming context is a prefix of the outgoing one.
pub proof fn lemma_stack_err<T>(stack: Seq<LayerStep>, c: OpContext, e: ErrModel)
    ensures
        stack_result::<T>(stack, c, Result::Err(e)) is Err,
        e.context.is_prefix_of(err_context_of(stack_result::<T>(stack, c, Result::Err(e)))),
    decreases stack.len(),
{
    if stack.len() == 0 {
        assert(e.context.subrange(0, e.context.len() as int) =~= e.context);
    } else {
        lemma_step_err::<T>(stack.first(), c, e);
        let e1 = step_result::<T>(stack.first(), c, Result::Err(e))->Err_0;
        lemma_stack_err::<T>(stack.drop_first(), c, e1);
        lemma_prefix_trans(
            e.context,
            e1.context,
            err_context_of(stack_result::<T>(stack.drop_first(), c, Result::Err(e1))),
        );
    }
}

/// Splitting a stack: the outer part transforms what the inner part made.
pub proof fn lemma_stack_append<T>(a: Seq<LayerStep>, b: Seq<LayerStep>, c: OpContext, r: Result<
    T,
    ErrModel,
>)
    ensures
        stack_result(a + b, c, r) == stack_result(b, c, stack_result(a, c, r)),
    decreases a.len(),
{
    if a.len() == 0 {
        assert(a + b =~= b);
    } else {
        assert((a + b).first() == a.first());
        assert((a + b).drop_first() =~= a.drop_first() + b);
        lemma_stack_append(a.drop_first(), b, c, step_result(a.first(), c, r));
    }
}

/// A stack of outcome-neutral steps changes nothing.
pub proof fn lemma_stack_neutral<T>(stack: Seq<LayerStep>, c: OpContext, r: Result<T, ErrModel>)
    requires
        forall|i: int| 0 <= i < stack.len() ==> error_neutral(#[trigger] stack[i]),
    ensures
        stack_result(stack, c, r) == r,
    decreases stack.len(),
{
    if stack.len() > 0 {
        assert(error_neutral(stack[0]));
        assert(step_result(stack.first(), c, r) == r);
        assert(forall|i: int|
            0 <= i < stack.drop_first().len() ==> error_neutral(#[trigger] stack.drop_first()[i]));
        lemma_stack_neutral(stack.drop_first(), c, r);
    }
}

/// A stack with no failure-injecting step hands every success through.
pub proof fn lemma_stack_ok<T>(stack: Seq<LayerStep>, c: OpContext, v: T)
    requires
        forall|i: int| 0 <= i < stack.len() ==> ok_transparent(#[trigger] stack[i]),
    ensures
        stack_result(stack, c, Result::Ok(v)) == Result::<T, ErrModel>::Ok(v),
    decreases stack.len(),
{
    if stack.len() > 0 {
        assert(ok_transparent(stack[0]));
        assert(step_result(stack.first(), c, Result::Ok(v)) == Result::<T, ErrModel>::Ok(v));
        assert(forall|i: int|
            0 <= i < stack.drop_first().len() ==> ok_transparent(#[trigger] stack.drop_first()[i]));
        lemma_stack_ok(stack.drop_first(), c, v);
    }
}

/// Layers decide outcomes without looking inside a success value: two runs
/// whose inputs agree in shape and in failure model agree in shape and in
/// failure model throughout, and a surviving success is handed through.
pub proof fn lemma_stack_parametric<T, U>(
    stack: Seq<LayerStep>,
    c: OpContext,
    rt: Result<T, ErrModel>,
    ru: Result<U, ErrModel>,
)
    requires
        rt is Ok <==> ru is Ok,
        rt is Err ==> rt->Err_0 == ru->Err_0,
    ensures
        stack_result(stack, c, rt) is Ok <==> stack_result(stack, c, ru) is Ok,
        stack_result(stack, c, rt) is Ok ==> stack_result(stack, c, rt)->Ok_0 == rt->Ok_0
            && stack_result(stack, c, ru)->Ok_0 == ru->Ok_0,
        stack_result(stack, c, rt) is Err ==> stack_result(stack, c, rt)->Err_0 == stack_result(
            stack,
            c,
            ru,
        )->Err_0,
    decreases stack.len(),
{
    if stack.len() > 0 {
        let st = step_result(stack.first(), c, rt);
        let su = step_result(stack.first(), c, ru);
        assert(st is Ok <==> su is Ok);
        assert(st is Err ==> st->Err_0 == su->Err_0);
        assert(st is Ok ==> st->Ok_0 == rt->Ok_0 && su->Ok_0 == ru->Ok_0);
        if st is Err {
            lemma_stack_err::<T>(stack.drop_first(), c, st->Err_0);
            lemma_stack_err::<U>(stack.drop_first(), c, su->Err_0);
        }
        lemma_stack_parametric(stack.drop_first(), c, st, su);
    }
}

/// Mandatory bracketing, inner side: when the innermost entry is the
/// error-context layer, every failure raised by the backend reaches the
/// caller still carrying the operation, path and scheme context that layer
/// attached, whatever the rest of the stack does.
pub proof fn lemma_mandatory_context<T>(stack: Seq<LayerStep>, c: OpContext, e: ErrModel)
    requires
        stack.len() > 0,
        stack[0] == LayerStep::ErrorContext,
    ensures
        stack_result::<T>(stack, c, Result::Err(e)) is Err,
        err_context_of(stack_result::<T>(stack, c, Result::Err(e))).contains(
            ("operation"@, c.op),
        ),
        err_context_of(stack_result::<T>(stack, c, Result::Err(e))).contains(("path"@, c.path)),
        err_context_of(stack_result::<T>(stack, c, Result::Err(e))).contains(
            ("service"@, c.scheme),
        ),
{
    let e1 = step_result::<T>(stack.first(), c, Result::Err(e))->Err_0;
    let c1 = e1.context;
    assert(c1 == e.context.push(("operation"@, c.op)).push(("path"@, c.path)).push(
        ("service"@, c.scheme),
    ));
    assert(c1.contains(("service"@, c.scheme))) by {
        assert(c1[c1.len() - 1] == ("service"@, c.scheme));
    }
    assert(c1.contains(("path"@, c.path))) by {
        assert(c1[c1.len() - 2] == ("path"@, c.path));
    }
    assert(c1.contains(("operation"@, c.op))) by {
        assert(c1[c1.len() - 3] == ("operation"@, c.op));
    }
    lemma_stack_err::<T>(stack.drop_first(), c, e1);
    let out = err_context_of(stack_result::<T>(stack.drop_first(), c, Result::Err(e1)));
    lemma_prefix_contains(c1, out, ("operation"@, c.op));
    lemma_prefix_contains(c1, out, ("path"@, c.path));
    lemma_prefix_contains(c1, out, ("service"@, c.scheme));
}

/// A failure-injecting transform dominates: with outcome-neutral steps
/// outside it, every operation fails with its classification, and the
/// context the inner part of the stack had attached is kept in full.
pub proof fn lemma_injected_failure<T>(
    pre: Seq<LayerStep>,
    fail: Layer,
    post: Seq<LayerStep>,
    c: OpContext,
    r: Result<T, ErrModel>,
)
    requires
        fail matches Layer::Fail { .. },
        forall|i: int| 0 <= i < post.len() ==> error_neutral(#[trigger] post[i]),
    ensures
        ({
            let out = stack_result(pre + seq![LayerStep::User(fail)] + post, c, r);
            match fail {
                Layer::Fail { kind, message } => out == Result::<T, ErrModel>::Err(
                    ErrModel {
                        kind,
                        message: message@,
                        context: err_context_of(stack_result(pre, c, r)),
                    },
                ),
                _ => false,
            }
        }),
{
    let mid = seq![LayerStep::User(fail)];
    let r1 = stack_result(pre, c, r);
    lemma_stack_append(pre + mid, post, c, r);
    lemma_stack_append(pre, mid, c, r);
    let step1 = step_result(mid.first(), c, r1);
    assert(mid.drop_first() =~= Seq::<LayerStep>::empty());
    assert(stack_result(mid, c, r1) == stack_result(mid.drop_first(), c, step1));
    assert(stack_result(Seq::<LayerStep>::empty(), c, step1) == step1);
    lemma_stack_neutral(post, c, stack_result(mid, c, r1));
}
pub fn apply_step<T>(l: &LayerStep, op: &str, path: &str, scheme: &str, r: Result<T, Error>) -> (res:
    Result<T, Error>)
    ensures
        res_model(res) == step_result(
            *l,
            OpContext { op: op@, path: path@, scheme: scheme@ },
            res_model(r),
        ),
{
    match l {
        LayerStep::ErrorContext => match r {
            Result::Ok(v) => Result::Ok(v),
            Result::Err(e) => Result::Err(
                e.with_context("operation", op).with_context("path", path).with_context(
                    "service",
                    scheme,
                ),
            ),
        },
        LayerStep::Complete => r,
        LayerStep::TypeErase => r,
        LayerStep::Blocking => r,
        LayerStep::Logging => r,
        LayerStep::User(u) => match u {
            Layer::Noop => r,
            Layer::Annotate { key, value } => match r {
                Result::Ok(v) => Result::Ok(v),
                Result::Err(e) => Result::Err(e.with_context(key.as_str(), value.as_str())),
            },
            Layer::Fail { kind, message } => match r {
                Result::Ok(_) => Result::Err(Error::new(*kind, message.as_str())),
                Result::Err(e) => Result::Err(e.reclassified(*kind, message.as_str())),
            },
        },
    }
}

/// Apply a whole stack to an outcome, innermost entry first.
pub fn apply_stack<T>(
    stack: &Vec<LayerStep>,
    op: &str,
    path: &str,
    scheme: &str,
    r: Result<T, Error>,
) -> (res: Result<T, Error>)
    ensures
        res_model(res) == stack_result(
            stack@,
            OpContext { op: op@, path: path@, scheme: scheme@ },
            res_model(r),
        ),
{
    let ghost c = OpContext { op: op@, path: path@, scheme: scheme@ };
    let ghost r0 = res_model(r);
    let mut cur = r;
    let mut i: usize = 0;
    proof {
        assert(stack@.subrange(0, stack@.len() as int) =~= stack@);
        assert(stack@.subrange(i as int, stack@.len() as int) =~= stack@);
    }
    while i < stack.len()
        invariant
            i <= stack@.len(),
            c == (OpContext { op: op@, path: path@, scheme: scheme@ }),
            stack_result(stack@.subrange(i as int, stack@.len() as int), c, res_model(cur))
                == stack_result(stack@, c, r0),
        decreases stack@.len() - i,
    {
        let ghost rest = stack@.subrange(i as int, stack@.len() as int);
        let ghost prev = res_model(cur);
        proof {
            assert(rest.first() == stack@[i as int]);
            assert(rest.drop_first() =~= stack@.subrange(i as int + 1, stack@.len() as int));
            assert(stack_result(rest, c, prev) == stack_result(
                rest.drop_first(),
                c,
                step_result(rest.first(), c, prev),
            ));
        }
        cur = apply_step(&stack[i], op, path, scheme, cur);
        i = i + 1;
        proof {
            assert(res_model(cur) == step_result(rest.first(), c, prev));
            assert(stack@.subrange(i as int, stack@.len() as int) =~= rest.drop_first());
        }
    }
    proof {
        assert(stack@.subrange(stack@.len() as int, stack@.len() as int) =~= Seq::<
            LayerStep,
        >::empty());
    }
    cur
}

} // verus!
