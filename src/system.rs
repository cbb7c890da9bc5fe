use vstd::prelude::*;

use crate::app::WindowContext;
use crate::cell::{AliasingCell, ExtractError};
use crate::param::{
    all_idle, cell_at, conflicting_bindings_fail, extract, extract_all, extract_upto, key_loc, loc_of_key,
    param_loc, shared_reads_succeed, writes, Binding, Loc, Param,
};
use crate::store::TypeKeyedStore;
use crate::value::{TypeKey, Value};

verus! {

/// The context and shared entries with the value at `l` replaced by `v`.
pub open spec fn with_value(
    ctx: WindowContext,
    m: Map<TypeKey, AliasingCell>,
    l: Loc,
    v: Value,
) -> (WindowContext, Map<TypeKey, AliasingCell>) {
    match l {
        Loc::Title => (WindowContext { title: AliasingCell { value: v, ..ctx.title }, ..ctx }, m),
        Loc::Surface => (WindowContext { surface: AliasingCell { value: v, ..ctx.surface }, ..ctx }, m),
        Loc::State => (WindowContext { state: AliasingCell { value: v, ..ctx.state }, ..ctx }, m),
        Loc::Shared(k) => (ctx, m.insert(k, AliasingCell { value: v, ..m[k] })),
    }
}

/// Stores `v` at `l` if it is of type `key`, as the value already there is.
pub open spec fn store_if_same(
    ctx: WindowContext,
    m: Map<TypeKey, AliasingCell>,
    l: Loc,
    key: TypeKey,
    v: Value,
) -> (WindowContext, Map<TypeKey, AliasingCell>) {
    if v.key() == key && (cell_at(ctx, m, l) matches Some(c) && c.value.key() == key) {
        with_value(ctx, m, l, v)
    } else {
        (ctx, m)
    }
}

/// What handing back `b` for binding `p` changes: a read-write handle
/// stores its value in the bound cell, provided the value is still of the
/// bound type; anything else changes nothing.
pub open spec fn write_one(
    ctx: WindowContext,
    m: Map<TypeKey, AliasingCell>,
    p: Param,
    b: Binding,
) -> (WindowContext, Map<TypeKey, AliasingCell>) {
    match (p, b) {
        (Param::ResMut(key), Binding::ResMut(h)) => store_if_same(ctx, m, loc_of_key(key), key, h.value),
        (Param::State(key), Binding::State(h)) => store_if_same(ctx, m, Loc::State, key, h.value),
        _ => (ctx, m),
    }
}

/// Handing back the first `n` handles of `out`, last first.
pub open spec fn write_upto(
    ctx: WindowContext,
    m: Map<TypeKey, AliasingCell>,
    ps: Seq<Param>,
    out: Seq<Binding>,
    n: int,
) -> (WindowContext, Map<TypeKey, AliasingCell>)
    decreases n,
{
    if n <= 0 {
        (ctx, m)
    } else {
        let (c2, m2) = write_one(ctx, m, ps[n - 1], out[n - 1]);
        write_upto(c2, m2, ps, out, n - 1)
    }
}

/// Handing back the handles a unit returned: one per declared binding,
/// extra ones ignored.
pub open spec fn write_back(
    ctx: WindowContext,
    m: Map<TypeKey, AliasingCell>,
    ps: Seq<Param>,
    out: Seq<Binding>,
) -> (WindowContext, Map<TypeKey, AliasingCell>) {
    write_upto(ctx, m, ps, out, if out.len() < ps.len() { out.len() as int } else { ps.len() as int })
}

/// Stores `v` in the cell at `l`.
fn set_value_at(ctx: &mut WindowContext, store: &mut TypeKeyedStore, l: Loc, v: Value)
    requires
        old(store).wf(),
        cell_at(*old(ctx), old(store).view(), l) is Some,
        v.key() == cell_at(*old(ctx), old(store).view(), l)->Some_0.value.key(),
    ensures
        final(store).wf(),
        (*final(ctx), final(store).view()) == with_value(*old(ctx), old(store).view(), l, v),
{
    match l {
        Loc::Title => {
            ctx.title.value = v;
        },
        Loc::Surface => {
            ctx.surface.value = v;
        },
        Loc::State => {
            ctx.state.value = v;
        },
        Loc::Shared(k) => {
            let i = store.find(k).unwrap();
            let ghost before = *store;
            store.entries[i].value = v;
            proof {
                TypeKeyedStore::lemma_update(before, *store, i as int);
            }
        },
    }
}

/// The type of the value at `l`, if a cell exists there.
fn key_at(ctx: &WindowContext, store: &TypeKeyedStore, l: Loc) -> (r: Option<TypeKey>)
    requires
        store.wf(),
    ensures
        r == match cell_at(*ctx, store.view(), l) {
            Some(c) => Some(c.value.key()),
            None => None::<TypeKey>,
        },
{
    match l {
        Loc::Title => Some(ctx.title.value.type_key()),
        Loc::Surface => Some(ctx.surface.value.type_key()),
        Loc::State => Some(ctx.state.value.type_key()),
        Loc::Shared(k) => match store.find(k) {
            Some(i) => Some(store.entries[i].value.type_key()),
            None => None,
        },
    }
}

fn store_value_if_same(ctx: &mut WindowContext, store: &mut TypeKeyedStore, l: Loc, key: TypeKey, v: Value)
    requires
        old(store).wf(),
    ensures
        final(store).wf(),
        (*final(ctx), final(store).view()) == store_if_same(*old(ctx), old(store).view(), l, key, v),
{
    if v.type_key() == key && key_at(ctx, store, l) == Some(key) {
        set_value_at(ctx, store, l, v);
    }
}

fn write_binding(ctx: &mut WindowContext, store: &mut TypeKeyedStore, p: Param, b: Binding)
    requires
        old(store).wf(),
    ensures
        final(store).wf(),
        (*final(ctx), final(store).view()) == write_one(*old(ctx), old(store).view(), p, b),
{
    match p {
        Param::ResMut(key) => match b {
            Binding::ResMut(h) => store_value_if_same(ctx, store, key_loc(key), key, h.value),
            _ => {},
        },
        Param::State(key) => match b {
            Binding::State(h) => store_value_if_same(ctx, store, Loc::State, key, h.value),
            _ => {},
        },
        _ => {},
    }
}

/// Hands back the handles a unit returned, as `write_back` says.
fn write_all(params: &Vec<Param>, out: Vec<Binding>, ctx: &mut WindowContext, store: &mut TypeKeyedStore)
    requires
        old(store).wf(),
        all_idle(*old(ctx), old(store).view()),
        old(ctx).wf(),
    ensures
        final(store).wf(),
        all_idle(*final(ctx), final(store).view()),
        final(ctx).wf(),
        (*final(ctx), final(store).view()) == write_back(*old(ctx), old(store).view(), params@, out@),
{
    let ghost orig = out@;
    let ghost n: int = if orig.len() < params@.len() { orig.len() as int } else { params@.len() as int };
    let mut out = out;
    while out.len() > params.len()
        invariant
            n == (if orig.len() < params@.len() { orig.len() as int } else { params@.len() as int }),
            n <= out@.len() <= orig.len(),
            out@ == orig.take(out@.len() as int),
        decreases out@.len(),
    {
        out.pop();
    }
    let ghost c0 = *ctx;
    let ghost m0 = store.view();
    while out.len() > 0
        invariant
            store.wf(),
            all_idle(*ctx, store.view()),
            ctx.wf(),
            out@.len() <= n,
            n <= params@.len(),
            n <= orig.len(),
            out@ == orig.take(out@.len() as int),
            write_upto(c0, m0, params@, orig, n) == write_upto(*ctx, store.view(), params@, orig, out@.len() as int),
        decreases out@.len(),
    {
        let i = out.len() - 1;
        let b = out.pop().unwrap();
        proof {
            assert(b == orig[i as int]);
        }
        let ghost m1 = store.view();
        write_binding(ctx, store, params[i], b);
        proof {
            assert forall|k: TypeKey| #[trigger] store.view().dom().contains(k) implies store.view()[k].is_idle() by {
                assert(m1.dom().contains(k));
            }
        }
    }
}

/// A unit: a function together with the bindings it declares, in order.
/// The function receives one handle per binding and hands the handles back;
/// what it leaves in a read-write handle is stored when it returns.
pub struct FunctionSystem<F> {
    pub params: Vec<Param>,
    pub f: F,
}

/// What one invocation of unit `u` does, from context `c0` and shared
/// entries `m0` to `c1` and `m1`, returning `r`: if an extraction fails,
/// that error and no change; otherwise the function ran on the extracted
/// handles and what it handed back was stored.
pub open spec fn unit_outcome<F: Fn(Vec<Binding>) -> Vec<Binding>>(
    u: FunctionSystem<F>,
    c0: WindowContext,
    m0: Map<TypeKey, AliasingCell>,
    c1: WindowContext,
    m1: Map<TypeKey, AliasingCell>,
    r: Result<(), ExtractError>,
) -> bool {
    match extract_all(u.params@, c0, m0) {
        Err(e) => {
            &&& r == Err::<(), ExtractError>(e)
            &&& c1 == c0
            &&& m1 == m0
        },
        Ok(bs) => {
            &&& r is Ok
            &&& exists|a: Vec<Binding>, out: Vec<Binding>|
                a@ == bs && #[trigger] call_ensures(u.f, (a,), out)
                    && (c1, m1) == write_back(c0, m0, u.params@, out@)
        },
    }
}

impl<F: Fn(Vec<Binding>) -> Vec<Binding>> FunctionSystem<F> {
    /// The function accepts every list of handles.
    pub open spec fn callable(&self) -> bool {
        forall|a: Vec<Binding>| #[trigger] call_requires(self.f, (a,))
    }

    pub fn new(params: Vec<Param>, f: F) -> (r: Self)
        ensures
            r.params == params,
            r.f == f,
    {
        FunctionSystem { params, f }
    }

    /// Extracts every declared binding, then runs the function on the
    /// handles and stores what it left in the read-write ones. If an
    /// extraction fails the function is not run and nothing changes.
    pub fn call(&self, ctx: &mut WindowContext, store: &mut TypeKeyedStore) -> (r: Result<(), ExtractError>)
        requires
            old(store).wf(),
            old(ctx).wf(),
            all_idle(*old(ctx), old(store).view()),
            self.callable(),
        ensures
            final(store).wf(),
            final(ctx).wf(),
            all_idle(*final(ctx), final(store).view()),
            unit_outcome(*self, *old(ctx), old(store).view(), *final(ctx), final(store).view(), r),
    {
        let args = match extract(&self.params, ctx, store) {
            Err(e) => {
                return Err(e);
            },
            Ok(args) => args,
        };
        let ghost a = args;
        let out = (self.f)(args);
        let ghost o = out;
        write_all(&self.params, out, ctx, store);
        proof {
            assert(call_ensures(self.f, (a,), o));
        }
        Ok(())
    }
}

/// Handing back handles for read-only bindings changes nothing.
proof fn lemma_reads_write_nothing(
    c: WindowContext,
    m: Map<TypeKey, AliasingCell>,
    ps: Seq<Param>,
    out: Seq<Binding>,
    n: int,
)
    requires
        n <= ps.len(),
        forall|i: int| 0 <= i < ps.len() ==> (#[trigger] ps[i]) is Res,
    ensures
        write_upto(c, m, ps, out, n) == (c, m),
    decreases n,
{
    if n > 0 {
        assert(ps[n - 1] is Res);
        lemma_reads_write_nothing(c, m, ps, out, n - 1);
    }
}

/// A unit that declares two bindings to the same cell, at least one of them
/// read-write, is never entered: its invocation fails and changes nothing,
/// with `AlreadyBorrowed` when every binding before the second was
/// extracted.
pub proof fn conflicting_unit_never_runs<F: Fn(Vec<Binding>) -> Vec<Binding>>(
    u: FunctionSystem<F>,
    i: int,
    j: int,
    c0: WindowContext,
    m0: Map<TypeKey, AliasingCell>,
    c1: WindowContext,
    m1: Map<TypeKey, AliasingCell>,
    r: Result<(), ExtractError>,
)
    requires
        unit_outcome(u, c0, m0, c1, m1, r),
        0 <= i < j < u.params@.len(),
        param_loc(u.params@[i]) is Some,
        param_loc(u.params@[i]) == param_loc(u.params@[j]),
        writes(u.params@[i]) || writes(u.params@[j]),
    ensures
        r is Err,
        c1 == c0,
        m1 == m0,
        extract_upto(u.params@, j, c0, m0) is Ok ==> r matches Err(ExtractError::AlreadyBorrowed(_)),
{
    conflicting_bindings_fail(u.params@, i, j, c0, m0);
}

/// Units that only read resources do not hinder one another: two of them
/// run one after the other, on any contexts holding what they read, both
/// succeed and leave every context and resource unchanged.
pub proof fn read_only_units_both_run<F: Fn(Vec<Binding>) -> Vec<Binding>>(
    u1: FunctionSystem<F>,
    u2: FunctionSystem<F>,
    c: WindowContext,
    d: WindowContext,
    m: Map<TypeKey, AliasingCell>,
    c1: WindowContext,
    m1: Map<TypeKey, AliasingCell>,
    r1: Result<(), ExtractError>,
    d1: WindowContext,
    m2: Map<TypeKey, AliasingCell>,
    r2: Result<(), ExtractError>,
)
    requires
        forall|i: int| 0 <= i < u1.params@.len()
            ==> ((#[trigger] u1.params@[i]) matches Param::Res(k) && cell_at(c, m, loc_of_key(k)) is Some),
        forall|i: int| 0 <= i < u2.params@.len()
            ==> ((#[trigger] u2.params@[i]) matches Param::Res(k) && cell_at(d, m, loc_of_key(k)) is Some),
        unit_outcome(u1, c, m, c1, m1, r1),
        unit_outcome(u2, d, m1, d1, m2, r2),
    ensures
        r1 is Ok,
        r2 is Ok,
        c1 == c,
        d1 == d,
        m1 == m,
        m2 == m,
{
    shared_reads_succeed(u1.params@, c, m);
    let (a, out) = choose|a: Vec<Binding>, out: Vec<Binding>|
        a@ == extract_all(u1.params@, c, m)->Ok_0 && #[trigger] call_ensures(u1.f, (a,), out)
            && (c1, m1) == write_back(c, m, u1.params@, out@);
    lemma_reads_write_nothing(c, m, u1.params@, out@, if out@.len() < u1.params@.len() { out@.len() as int } else { u1.params@.len() as int });
    assert forall|i: int| 0 <= i < u2.params@.len()
        implies ((#[trigger] u2.params@[i]) matches Param::Res(k) && cell_at(d, m1, loc_of_key(k)) is Some) by {
    }
    shared_reads_succeed(u2.params@, d, m1);
    let (a2, out2) = choose|a2: Vec<Binding>, out2: Vec<Binding>|
        a2@ == extract_all(u2.params@, d, m1)->Ok_0 && #[trigger] call_ensures(u2.f, (a2,), out2)
            && (d1, m2) == write_back(d, m1, u2.params@, out2@);
    lemma_reads_write_nothing(d, m1, u2.params@, out2@, if out2@.len() < u2.params@.len() { out2@.len() as int } else { u2.params@.len() as int });
}

/// Handing back handles keeps the set of shared types and the type of the
/// window's state.
pub proof fn lemma_write_keeps_shape(
    c: WindowContext,
    m: Map<TypeKey, AliasingCell>,
    ps: Seq<Param>,
    out: Seq<Binding>,
    n: int,
)
    ensures
        write_upto(c, m, ps, out, n).1.dom() == m.dom(),
        write_upto(c, m, ps, out, n).0.state.value.key() == c.state.value.key(),
    decreases n,
{
    if n > 0 {
        let (c2, m2) = write_one(c, m, ps[n - 1], out[n - 1]);
        assert(m2.dom() =~= m.dom());
        lemma_write_keeps_shape(c2, m2, ps, out, n - 1);
    }
}

/// An invocation keeps the set of shared types and the type of the
/// window's state.
pub proof fn lemma_unit_keeps_shape<F: Fn(Vec<Binding>) -> Vec<Binding>>(
    u: FunctionSystem<F>,
    c0: WindowContext,
    m0: Map<TypeKey, AliasingCell>,
    c1: WindowContext,
    m1: Map<TypeKey, AliasingCell>,
    r: Result<(), ExtractError>,
)
    requires
        unit_outcome(u, c0, m0, c1, m1, r),
    ensures
        m1.dom() == m0.dom(),
        c1.state.value.key() == c0.state.value.key(),
{
    if extract_all(u.params@, c0, m0) is Ok {
        let (a, out) = choose|a: Vec<Binding>, out: Vec<Binding>|
            a@ == extract_all(u.params@, c0, m0)->Ok_0 && #[trigger] call_ensures(u.f, (a,), out)
                && (c1, m1) == write_back(c0, m0, u.params@, out@);
        lemma_write_keeps_shape(c0, m0, u.params@, out@, if out@.len() < u.params@.len() { out@.len() as int } else { u.params@.len() as int });
    }
}

} // verus!
