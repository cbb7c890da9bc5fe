use vstd::prelude::*;

use crate::app::WindowContext;
use crate::cell::{idle_cell, AliasingCell, ExtractError};
use crate::param::{
    all_idle, conflicting_bindings_fail, extract_all, extract_upto, loc_of_key, param_loc, placed,
    unavailable_binding_fails, writes, Binding, Param,
};
use crate::store::TypeKeyedStore;
use crate::system::{lemma_unit_keeps_shape, unit_outcome, FunctionSystem};
use crate::value::{TypeKey, Value};

verus! {

/// A record of running units `us` in order, one context and one set of
/// shared entries before each: the first `k` ran successfully; then either
/// all have run and `r` is `Ok`, or unit `k` failed with `r`, changing
/// nothing, and no later unit ran.
pub open spec fn ran_trace<F: Fn(Vec<Binding>) -> Vec<Binding>>(
    us: Seq<FunctionSystem<F>>,
    cs: Seq<WindowContext>,
    ms: Seq<Map<TypeKey, AliasingCell>>,
    k: int,
    r: Result<(), ExtractError>,
) -> bool {
    &&& 0 <= k <= us.len()
    &&& cs.len() == k + 1
    &&& ms.len() == k + 1
    &&& forall|j: int| 0 <= j < k ==> #[trigger] unit_outcome(us[j], cs[j], ms[j], cs[j + 1], ms[j + 1], Ok(()))
    &&& r is Ok ==> k == us.len()
    &&& r is Err ==> k < us.len() && unit_outcome(us[k], cs[k], ms[k], cs[k], ms[k], r)
}

/// Running units `us` in order against one context and the shared entries
/// took `c0`, `m0` to `c1`, `m1` and returned `r`.
pub open spec fn ran_units<F: Fn(Vec<Binding>) -> Vec<Binding>>(
    us: Seq<FunctionSystem<F>>,
    c0: WindowContext,
    m0: Map<TypeKey, AliasingCell>,
    c1: WindowContext,
    m1: Map<TypeKey, AliasingCell>,
    r: Result<(), ExtractError>,
) -> bool {
    exists|cs: Seq<WindowContext>, ms: Seq<Map<TypeKey, AliasingCell>>, k: int|
        #[trigger] ran_trace(us, cs, ms, k, r) && cs[0] == c0 && ms[0] == m0 && cs[k] == c1 && ms[k] == m1
}

/// An ordered list of units run against one context and a set of shared
/// resources.
pub struct Scheduler<F> {
    pub systems: Vec<FunctionSystem<F>>,
    pub resources: TypeKeyedStore,
    pub context: WindowContext,
}

impl<F: Fn(Vec<Binding>) -> Vec<Binding>> Scheduler<F> {
    pub open spec fn wf(&self) -> bool {
        &&& self.resources.wf()
        &&& self.context.wf()
        &&& all_idle(self.context, self.resources.view())
        &&& forall|i: int| 0 <= i < self.systems@.len() ==> #[trigger] self.systems@[i].callable()
    }

    /// No units, no resources, and a context whose state is the unit value.
    pub fn new() -> (r: Self)
        ensures
            r.wf(),
            r.systems@.len() == 0,
            r.resources.view() == Map::<TypeKey, AliasingCell>::empty(),
            r.context.state == idle_cell(Value::Unit),
    {
        Scheduler { systems: Vec::new(), resources: TypeKeyedStore::new(), context: WindowContext::new(Value::Unit) }
    }

    /// Runs every unit once, in the order they were added; stops at the
    /// first unit whose extraction fails and returns that error.
    pub fn run(&mut self) -> (r: Result<(), ExtractError>)
        requires
            old(self).wf(),
        ensures
            final(self).wf(),
            final(self).systems == old(self).systems,
            ran_units(
                old(self).systems@,
                old(self).context,
                old(self).resources.view(),
                final(self).context,
                final(self).resources.view(),
                r,
            ),
    {
        let ghost us = self.systems@;
        let ghost mut cs: Seq<WindowContext> = seq![self.context];
        let ghost mut ms: Seq<Map<TypeKey, AliasingCell>> = seq![self.resources.view()];
        let mut i: usize = 0;
        while i < self.systems.len()
            invariant
                self.wf(),
                self.systems == old(self).systems,
                us == self.systems@,
                i <= us.len(),
                cs.len() == i + 1,
                ms.len() == i + 1,
                forall|j: int| 0 <= j < i ==> #[trigger] unit_outcome(us[j], cs[j], ms[j], cs[j + 1], ms[j + 1], Ok(())),
                cs[0] == old(self).context,
                ms[0] == old(self).resources.view(),
                cs[i as int] == self.context,
                ms[i as int] == self.resources.view(),
            decreases us.len() - i,
        {
            let ghost c_before = self.context;
            let ghost m_before = self.resources.view();
            let r = self.systems[i].call(&mut self.context, &mut self.resources);
            match r {
                Err(e) => {
                    proof {
                        assert(ran_trace(us, cs, ms, i as int, r));
                    }
                    return Err(e);
                },
                Ok(()) => {},
            }
            proof {
                cs = cs.push(self.context);
                ms = ms.push(self.resources.view());
                assert(unit_outcome(us[i as int], cs[i as int], ms[i as int], cs[i + 1], ms[i + 1], Ok(())));
            }
            i = i + 1;
        }
        proof {
            assert(ran_trace(us, cs, ms, i as int, Ok(())));
        }
        Ok(())
    }

    /// Appends a unit; it will run after those added before it.
    pub fn add_system(&mut self, system: FunctionSystem<F>)
        requires
            old(self).wf(),
            system.callable(),
        ensures
            final(self).wf(),
            final(self).systems@ == old(self).systems@.push(system),
            final(self).resources == old(self).resources,
            final(self).context == old(self).context,
    {
        self.systems.push(system);
    }

    /// Stores a resource, replacing any earlier one of the same type; a
    /// title or a surface replaces the context's own.
    pub fn add_resource(&mut self, resource: Value)
        requires
            old(self).wf(),
        ensures
            final(self).wf(),
            (final(self).context, final(self).resources.view())
                == placed(old(self).context, old(self).resources.view(), resource),
            final(self).systems == old(self).systems,
    {
        match resource.type_key() {
            TypeKey::Title => {
                self.context.title = AliasingCell::new(resource);
            },
            TypeKey::Surface => {
                self.context.surface = AliasingCell::new(resource);
            },
            _ => {
                let ghost before = self.resources.view();
                self.resources.insert(resource);
                proof {
                    assert forall|k: TypeKey| #[trigger] self.resources.view().dom().contains(k)
                        implies self.resources.view()[k].is_idle() by {
                        if k != resource.key() {
                            assert(before.dom().contains(k));
                        }
                    }
                }
            },
        }
    }
}

/// Along a run, the set of shared types and the type of the context's state
/// stay as they were.
proof fn lemma_trace_keeps_shape<F: Fn(Vec<Binding>) -> Vec<Binding>>(
    us: Seq<FunctionSystem<F>>,
    cs: Seq<WindowContext>,
    ms: Seq<Map<TypeKey, AliasingCell>>,
    k: int,
    r: Result<(), ExtractError>,
    t: int,
)
    requires
        ran_trace(us, cs, ms, k, r),
        0 <= t <= k,
    ensures
        ms[t].dom() == ms[0].dom(),
        cs[t].state.value.key() == cs[0].state.value.key(),
    decreases t,
{
    if t > 0 {
        lemma_trace_keeps_shape(us, cs, ms, k, r, t - 1);
        let p = t - 1;
        assert(unit_outcome(us[p], cs[p], ms[p], cs[p + 1], ms[p + 1], Ok(())));
        lemma_unit_keeps_shape(us[p], cs[p], ms[p], cs[p + 1], ms[p + 1], Ok(()));
    }
}

/// A unit whose extraction fails where it would run stops the run there.
proof fn lemma_stops_at<F: Fn(Vec<Binding>) -> Vec<Binding>>(
    us: Seq<FunctionSystem<F>>,
    cs: Seq<WindowContext>,
    ms: Seq<Map<TypeKey, AliasingCell>>,
    k: int,
    r: Result<(), ExtractError>,
    i: int,
)
    requires
        ran_trace(us, cs, ms, k, r),
        0 <= i < us.len(),
        i <= k ==> extract_all(us[i].params@, cs[i], ms[i]) is Err,
    ensures
        k <= i,
        r is Err,
        k == i ==> r == Err::<(), ExtractError>(extract_all(us[i].params@, cs[i], ms[i])->Err_0),
{
    if k > i {
        assert(unit_outcome(us[i], cs[i], ms[i], cs[i + 1], ms[i + 1], Ok(())));
    }
}

/// A run never hands a unit a resource that was never stored, nor state of
/// another type than its context's: the run fails at that unit or before,
/// so its function never runs; when everything before the binding was
/// extracted, the error is `MissingResource`, or `TypeMismatch` (an earlier
/// write guard on the state gives `AlreadyBorrowed`).
pub proof fn run_never_supplies_unavailable<F: Fn(Vec<Binding>) -> Vec<Binding>>(
    us: Seq<FunctionSystem<F>>,
    c0: WindowContext,
    m0: Map<TypeKey, AliasingCell>,
    c1: WindowContext,
    m1: Map<TypeKey, AliasingCell>,
    r: Result<(), ExtractError>,
    i: int,
    j: int,
)
    requires
        ran_units(us, c0, m0, c1, m1, r),
        0 <= i < us.len(),
        0 <= j < us[i].params@.len(),
        match us[i].params@[j] {
            Param::Res(k) => loc_of_key(k) is Shared && !m0.dom().contains(k),
            Param::ResMut(k) => loc_of_key(k) is Shared && !m0.dom().contains(k),
            Param::State(k) => c0.state.value.key() != k,
            Param::Surface => false,
        },
    ensures
        r is Err,
        forall|cs: Seq<WindowContext>, ms: Seq<Map<TypeKey, AliasingCell>>, k: int|
            #[trigger] ran_trace(us, cs, ms, k, r) && cs[0] == c0 && ms[0] == m0 ==> k <= i && (k == i
                && extract_upto(us[i].params@, j, cs[i], ms[i]) is Ok ==> match us[i].params@[j] {
                Param::Res(key) => r == Err::<(), ExtractError>(ExtractError::MissingResource(key)),
                Param::ResMut(key) => r == Err::<(), ExtractError>(ExtractError::MissingResource(key)),
                Param::State(key) => r == Err::<(), ExtractError>(
                    ExtractError::TypeMismatch { requested: key, actual: c0.state.value.key() },
                ) || r == Err::<(), ExtractError>(ExtractError::AlreadyBorrowed(c0.state.value.key())),
                Param::Surface => true,
            }),
{
    assert forall|cs: Seq<WindowContext>, ms: Seq<Map<TypeKey, AliasingCell>>, k: int|
        #[trigger] ran_trace(us, cs, ms, k, r) && cs[0] == c0 && ms[0] == m0 implies k <= i && r is Err && (k == i
            && extract_upto(us[i].params@, j, cs[i], ms[i]) is Ok ==> match us[i].params@[j] {
            Param::Res(key) => r == Err::<(), ExtractError>(ExtractError::MissingResource(key)),
            Param::ResMut(key) => r == Err::<(), ExtractError>(ExtractError::MissingResource(key)),
            Param::State(key) => r == Err::<(), ExtractError>(
                ExtractError::TypeMismatch { requested: key, actual: c0.state.value.key() },
            ) || r == Err::<(), ExtractError>(ExtractError::AlreadyBorrowed(c0.state.value.key())),
            Param::Surface => true,
        }) by {
        if i <= k {
            lemma_trace_keeps_shape(us, cs, ms, k, r, i);
            unavailable_binding_fails(us[i].params@, j, cs[i], ms[i]);
        }
        lemma_stops_at(us, cs, ms, k, r, i);
    }
    let (cs, ms, k) = choose|cs: Seq<WindowContext>, ms: Seq<Map<TypeKey, AliasingCell>>, k: int|
        #[trigger] ran_trace(us, cs, ms, k, r) && cs[0] == c0 && ms[0] == m0 && cs[k] == c1 && ms[k] == m1;
}

/// A run never enters a unit that binds one cell twice, at least one of
/// the bindings read-write: the run fails at that unit or before, leaving
/// everything as the units before it left it; when every binding before
/// the second was extracted, the error is `AlreadyBorrowed`.
pub proof fn run_never_enters_conflicting_unit<F: Fn(Vec<Binding>) -> Vec<Binding>>(
    us: Seq<FunctionSystem<F>>,
    c0: WindowContext,
    m0: Map<TypeKey, AliasingCell>,
    c1: WindowContext,
    m1: Map<TypeKey, AliasingCell>,
    r: Result<(), ExtractError>,
    i: int,
    a: int,
    b: int,
)
    requires
        ran_units(us, c0, m0, c1, m1, r),
        0 <= i < us.len(),
        0 <= a < b < us[i].params@.len(),
        param_loc(us[i].params@[a]) is Some,
        param_loc(us[i].params@[a]) == param_loc(us[i].params@[b]),
        writes(us[i].params@[a]) || writes(us[i].params@[b]),
    ensures
        r is Err,
        forall|cs: Seq<WindowContext>, ms: Seq<Map<TypeKey, AliasingCell>>, k: int|
            #[trigger] ran_trace(us, cs, ms, k, r) && cs[0] == c0 && ms[0] == m0 ==> k <= i && (k == i
                && extract_upto(us[i].params@, b, cs[i], ms[i]) is Ok ==> r matches Err(ExtractError::AlreadyBorrowed(_))),
{
    assert forall|cs: Seq<WindowContext>, ms: Seq<Map<TypeKey, AliasingCell>>, k: int|
        #[trigger] ran_trace(us, cs, ms, k, r) && cs[0] == c0 && ms[0] == m0 implies k <= i && r is Err && (k == i
            && extract_upto(us[i].params@, b, cs[i], ms[i]) is Ok ==> r matches Err(ExtractError::AlreadyBorrowed(_))) by {
        if i <= k {
            conflicting_bindings_fail(us[i].params@, a, b, cs[i], ms[i]);
        }
        lemma_stops_at(us, cs, ms, k, r, i);
    }
    let (cs, ms, k) = choose|cs: Seq<WindowContext>, ms: Seq<Map<TypeKey, AliasingCell>>, k: int|
        #[trigger] ran_trace(us, cs, ms, k, r) && cs[0] == c0 && ms[0] == m0 && cs[k] == c1 && ms[k] == m1;
}

} // verus!
