use vstd::prelude::*;

use crate::cell::{idle_cell, AliasingCell, ExtractError};
use crate::param::{all_idle, extract_all, extract_upto, loc_of_key, Binding, Param, State};
use crate::store::TypeKeyedStore;
use crate::system::{unit_outcome, write_back, write_one, write_upto, FunctionSystem};
use crate::value::{TypeKey, Value};

verus! {

/// A placeholder for the target a window renders into.
#[derive(Clone, Copy, Debug, PartialEq, Eq, Structural)]
pub struct Surface {}

/// The display title of a window.
#[derive(Debug, PartialEq, Eq)]
pub struct Title(pub String);

impl Title {
    pub fn new(title: &str) -> (r: Self)
        ensures
            r.0@ == title@,
    {
        Title(title.to_owned())
    }
}

/// The execution environment of one window: its own exclusive state, and
/// the window's title and surface, each in an aliasing-checked cell.
#[derive(Debug)]
pub struct WindowContext {
    pub title: AliasingCell,
    pub state: AliasingCell,
    pub surface: AliasingCell,
}

impl WindowContext {
    /// The title cell holds a title and the surface cell a surface.
    pub open spec fn wf(&self) -> bool {
        &&& self.title.value.key() == TypeKey::Title
        &&& self.surface.value.key() == TypeKey::Surface
    }

    /// No guard is live on any cell of the context.
    pub open spec fn is_idle(&self) -> bool {
        self.title.is_idle() && self.state.is_idle() && self.surface.is_idle()
    }

    /// As built for a new window: titled "Window", with a surface, and no
    /// guard live.
    pub open spec fn is_fresh(&self) -> bool {
        &&& self.wf()
        &&& self.is_idle()
        &&& self.surface == idle_cell(Value::Surface(Surface {}))
        &&& self.title.value matches Value::Title(t) && t.0@ == "Window"@
    }

    /// A context titled "Window" holding `state`.
    pub fn new(state: Value) -> (r: Self)
        ensures
            r.is_fresh(),
            r.state == idle_cell(state),
    {
        WindowContext {
            title: AliasingCell::new(Value::Title(Title::new("Window"))),
            state: AliasingCell::new(state),
            surface: AliasingCell::new(Value::Surface(Surface {})),
        }
    }

    /// The cell holding the window's exclusive state.
    pub fn state(&self) -> (r: &AliasingCell)
        ensures
            *r == self.state,
    {
        &self.state
    }
}

/// Builds the exclusive state of a new window, with read-only access to the
/// window's surface.
pub trait CreateWindowHandler {
    /// The state this constructor builds.
    spec fn made(&self) -> Value;

    fn create(&self, surface: &Surface) -> (v: Value)
        ensures
            v == self.made(),
    ;
}

/// A window without state holds the unit value.
impl CreateWindowHandler for () {
    open spec fn made(&self) -> Value {
        Value::Unit
    }

    fn create(&self, _surface: &Surface) -> (v: Value) {
        Value::Unit
    }
}

/// A value used as a constructor gives each window a copy of itself.
impl CreateWindowHandler for Value {
    open spec fn made(&self) -> Value {
        *self
    }

    fn create(&self, _surface: &Surface) -> (v: Value) {
        self.duplicate()
    }
}

/// The units attached to a window; for now only the one that renders it.
pub struct WindowHandlers<F> {
    pub render: FunctionSystem<F>,
}

impl<F: Fn(Vec<Binding>) -> Vec<Binding>> WindowHandlers<F> {
    /// Handlers whose render unit runs `handler` on the given bindings.
    pub fn render(params: Vec<Param>, handler: F) -> (r: Self)
        ensures
            r.render.params == params,
            r.render.f == handler,
    {
        WindowHandlers { render: FunctionSystem::new(params, handler) }
    }
}

/// Handlers whose render unit runs `handler` on the given bindings.
pub fn render<F: Fn(Vec<Binding>) -> Vec<Binding>>(params: Vec<Param>, handler: F) -> (r: WindowHandlers<F>)
    ensures
        r.render.params == params,
        r.render.f == handler,
{
    WindowHandlers::render(params, handler)
}

/// A record of rendering windows in order, with the shared entries before
/// each: windows before `k` rendered successfully; then either all have
/// rendered and `r` is `Ok`, or window `k` failed with `r`, changing
/// nothing, and no later window rendered.
pub open spec fn window_trace<F: Fn(Vec<Binding>) -> Vec<Binding>>(
    hs: Seq<WindowHandlers<F>>,
    before: Seq<WindowContext>,
    after: Seq<WindowContext>,
    ms: Seq<Map<TypeKey, AliasingCell>>,
    k: int,
    r: Result<(), ExtractError>,
) -> bool {
    &&& before.len() == hs.len()
    &&& after.len() == hs.len()
    &&& 0 <= k <= hs.len()
    &&& ms.len() == k + 1
    &&& forall|j: int| 0 <= j < k ==> #[trigger] unit_outcome(hs[j].render, before[j], ms[j], after[j], ms[j + 1], Ok(()))
    &&& forall|j: int| k <= j < hs.len() ==> #[trigger] after[j] == before[j]
    &&& r is Ok ==> k == hs.len()
    &&& r is Err ==> k < hs.len() && unit_outcome(hs[k].render, before[k], ms[k], before[k], ms[k], r)
}

/// Every window with its handlers, and the resources shared by all windows.
pub struct AppContext<F> {
    pub windows: Vec<WindowContext>,
    pub handlers: Vec<WindowHandlers<F>>,
    pub resources: TypeKeyedStore,
}

impl<F: Fn(Vec<Binding>) -> Vec<Binding>> AppContext<F> {
    pub open spec fn wf(&self) -> bool {
        &&& self.resources.wf()
        &&& self.resources.is_idle()
        &&& self.windows@.len() == self.handlers@.len()
        &&& forall|i: int| 0 <= i < self.windows@.len() ==> (#[trigger] self.windows@[i]).wf()
            && all_idle(self.windows@[i], self.resources.view())
        &&& forall|i: int| 0 <= i < self.handlers@.len() ==> (#[trigger] self.handlers@[i]).render.callable()
    }

    /// Rendering every window once, in order, took `before` to `after` and
    /// returned `r`.
    pub open spec fn rendered(before: Self, after: Self, r: Result<(), ExtractError>) -> bool {
        &&& after.handlers == before.handlers
        &&& exists|ms: Seq<Map<TypeKey, AliasingCell>>, k: int|
            #[trigger] window_trace(before.handlers@, before.windows@, after.windows@, ms, k, r)
                && ms[0] == before.resources.view() && ms[k] == after.resources.view()
    }

    pub fn new() -> (r: Self)
        ensures
            r.wf(),
            r.windows@.len() == 0,
            r.resources.view() == Map::<TypeKey, AliasingCell>::empty(),
    {
        AppContext { windows: Vec::new(), handlers: Vec::new(), resources: TypeKeyedStore::new() }
    }

    /// Adds a window holding `state`, rendered by `handlers` after the
    /// windows added before it.
    pub fn register(&mut self, state: Value, handlers: WindowHandlers<F>)
        requires
            old(self).wf(),
            handlers.render.callable(),
        ensures
            final(self).wf(),
            final(self).handlers@ == old(self).handlers@.push(handlers),
            final(self).windows@.len() == old(self).windows@.len() + 1,
            final(self).windows@.drop_last() == old(self).windows@,
            final(self).windows@.last().is_fresh(),
            final(self).windows@.last().state == idle_cell(state),
            final(self).resources == old(self).resources,
    {
        let context = WindowContext::new(state);
        self.windows.push(context);
        self.handlers.push(handlers);
        proof {
            assert(self.windows@.drop_last() =~= old(self).windows@);
        }
    }

    /// Renders every window once, in order; stops at the first window whose
    /// extraction fails and returns that error.
    pub fn run(&mut self) -> (r: Result<(), ExtractError>)
        requires
            old(self).wf(),
        ensures
            final(self).wf(),
            Self::rendered(*old(self), *final(self), r),
    {
        let ghost hs = self.handlers@;
        let ghost before = self.windows@;
        let ghost mut ms: Seq<Map<TypeKey, AliasingCell>> = seq![self.resources.view()];
        let mut i: usize = 0;
        while i < self.windows.len()
            invariant
                self.wf(),
                self.handlers == old(self).handlers,
                hs == self.handlers@,
                before == old(self).windows@,
                self.windows@.len() == before.len(),
                i <= before.len(),
                ms.len() == i + 1,
                ms[0] == old(self).resources.view(),
                ms[i as int] == self.resources.view(),
                forall|j: int| 0 <= j < i ==> #[trigger] unit_outcome(hs[j].render, before[j], ms[j], self.windows@[j], ms[j + 1], Ok(())),
                forall|j: int| i <= j < before.len() ==> #[trigger] self.windows@[j] == before[j],
            decreases before.len() - i,
        {
            let ghost w_before = self.windows@;
            let r = self.handlers[i].render.call(&mut self.windows[i], &mut self.resources);
            match r {
                Err(e) => {
                    proof {
                        assert(self.windows@ =~= w_before);
                        assert(window_trace(hs, before, self.windows@, ms, i as int, r));
                    }
                    return Err(e);
                },
                Ok(()) => {},
            }
            proof {
                ms = ms.push(self.resources.view());
                assert forall|j: int| 0 <= j < self.windows@.len() implies (#[trigger] self.windows@[j]).wf()
                    && all_idle(self.windows@[j], self.resources.view()) by {
                    if j != i {
                        assert(self.windows@[j] == w_before[j]);
                    }
                }
            }
            i = i + 1;
        }
        proof {
            assert(window_trace(hs, before, self.windows@, ms, i as int, Ok(())));
        }
        Ok(())
    }
}

/// An application: windows waiting to be created, each with the constructor
/// of its state and its handlers, and the context of the windows created so
/// far.
pub struct App<C, F> {
    pub windows: Vec<(C, WindowHandlers<F>)>,
    pub context: AppContext<F>,
}

impl<C: CreateWindowHandler, F: Fn(Vec<Binding>) -> Vec<Binding>> App<C, F> {
    pub open spec fn wf(&self) -> bool {
        &&& self.context.wf()
        &&& forall|i: int| 0 <= i < self.windows@.len() ==> (#[trigger] self.windows@[i]).1.render.callable()
    }

    /// `after` is `before` with a window created for each of `pending`, in
    /// order, from its constructor.
    pub open spec fn created(before: AppContext<F>, pending: Seq<(C, WindowHandlers<F>)>, after: AppContext<F>) -> bool {
        &&& after.resources == before.resources
        &&& after.handlers@.len() == before.handlers@.len() + pending.len()
        &&& after.windows@.len() == before.windows@.len() + pending.len()
        &&& after.handlers@.take(before.handlers@.len() as int) == before.handlers@
        &&& after.windows@.take(before.windows@.len() as int) == before.windows@
        &&& forall|j: int| 0 <= j < pending.len() ==> after.handlers@[before.handlers@.len() + j] == (#[trigger] pending[j]).1
        &&& forall|j: int| 0 <= j < pending.len() ==> (#[trigger] after.windows@[before.windows@.len() + j]).is_fresh()
        &&& forall|j: int| 0 <= j < pending.len() ==> (#[trigger] after.windows@[before.windows@.len() + j]).state
            == idle_cell(pending[j].0.made())
    }

    pub fn new() -> (r: Self)
        ensures
            r.wf(),
            r.windows@.len() == 0,
            r.context.windows@.len() == 0,
            r.context.resources.view() == Map::<TypeKey, AliasingCell>::empty(),
    {
        App { windows: Vec::new(), context: AppContext::new() }
    }

    /// Adds a window whose state `create` builds and which `handlers`
    /// render; it is created by the next run.
    pub fn window(self, create: C, handlers: WindowHandlers<F>) -> (r: Self)
        requires
            self.wf(),
            handlers.render.callable(),
        ensures
            r.wf(),
            r.windows@ == self.windows@.push((create, handlers)),
            r.context == self.context,
    {
        let mut app = self;
        app.windows.push((create, handlers));
        app
    }

    /// Stores a resource shared by all windows, replacing any earlier one of
    /// the same type. A title or a surface belongs to each window, not to
    /// all of them: such a value is refused, and `false` returned.
    pub fn insert_resource(&mut self, resource: Value) -> (stored: bool)
        requires
            old(self).wf(),
        ensures
            final(self).wf(),
            stored == (loc_of_key(resource.key()) is Shared),
            final(self).context.resources.view() == if stored {
                old(self).context.resources.view().insert(resource.key(), idle_cell(resource))
            } else {
                old(self).context.resources.view()
            },
            final(self).context.windows == old(self).context.windows,
            final(self).context.handlers == old(self).context.handlers,
            final(self).windows == old(self).windows,
    {
        match resource.type_key() {
            TypeKey::Title => false,
            TypeKey::Surface => false,
            _ => {
                let ghost before = self.context.resources.view();
                self.context.resources.insert(resource);
                proof {
                    assert forall|k: TypeKey| #[trigger] self.context.resources.view().dom().contains(k)
                        implies self.context.resources.view()[k].is_idle() by {
                        if k != resource.key() {
                            assert(before.dom().contains(k));
                        }
                    }
                }
                true
            },
        }
    }

    /// Creates the windows still waiting, in order, each from its constructor.
    fn create_windows(&mut self)
        requires
            old(self).wf(),
        ensures
            final(self).wf(),
            final(self).windows@.len() == 0,
            Self::created(old(self).context, old(self).windows@, final(self).context),
    {
        let ghost pending = self.windows@;
        let ghost ctx0 = self.context;
        let ghost n0 = ctx0.windows@.len();
        let ghost mut done: int = 0;
        while self.windows.len() > 0
            invariant
                self.wf(),
                0 <= done <= pending.len(),
                self.windows@ == pending.skip(done),
                pending == old(self).windows@,
                ctx0 == old(self).context,
                n0 == ctx0.windows@.len(),
                self.context.resources == ctx0.resources,
                self.context.handlers@.len() == n0 + done,
                self.context.windows@.len() == n0 + done,
                self.context.handlers@.take(n0 as int) == ctx0.handlers@,
                self.context.windows@.take(n0 as int) == ctx0.windows@,
                forall|j: int| 0 <= j < done ==> self.context.handlers@[n0 + j] == (#[trigger] pending[j]).1,
                forall|j: int| 0 <= j < done ==> (#[trigger] self.context.windows@[n0 + j]).is_fresh(),
                forall|j: int| 0 <= j < done ==> (#[trigger] self.context.windows@[n0 + j]).state
                    == idle_cell(pending[j].0.made()),
            decreases self.windows@.len(),
        {
            let ghost ws = self.windows@;
            let ghost hs_before = self.context.handlers@;
            let ghost cs_before = self.context.windows@;
            let (create, handlers) = self.windows.remove(0);
            proof {
                assert(ws[0] == pending[done]);
                assert(self.windows@ =~= pending.skip(done + 1));
                assert(handlers.render.callable()) by {
                    assert(ws[0].1.render.callable());
                }
                assert forall|i: int| 0 <= i < self.windows@.len() implies (#[trigger] self.windows@[i]).1.render.callable() by {
                    assert(self.windows@[i] == ws[i + 1]);
                }
            }
            let surface = Surface {};
            let state = create.create(&surface);
            self.context.register(state, handlers);
            proof {
                assert(self.context.handlers@.take(n0 as int) =~= ctx0.handlers@) by {
                    assert(hs_before.take(n0 as int) == ctx0.handlers@);
                }
                assert(self.context.windows@.take(n0 as int) =~= ctx0.windows@) by {
                    assert(cs_before.take(n0 as int) == ctx0.windows@);
                    assert(self.context.windows@.drop_last() == cs_before);
                }
                assert forall|j: int| 0 <= j < done + 1 implies (#[trigger] self.context.windows@[n0 + j]).is_fresh()
                    && self.context.windows@[n0 + j].state == idle_cell(pending[j].0.made()) by {
                    if j < done {
                        assert(self.context.windows@.drop_last() == cs_before);
                        assert(self.context.windows@[n0 + j] == cs_before[n0 + j]);
                    }
                }
                done = done + 1;
            }
        }
    }

    /// Creates the windows still waiting, then renders every window once,
    /// in order; stops at the first window whose extraction fails and
    /// returns that error. Windows created by an earlier run keep their
    /// state.
    pub fn run(&mut self) -> (r: Result<(), ExtractError>)
        requires
            old(self).wf(),
        ensures
            final(self).wf(),
            final(self).windows@.len() == 0,
            exists|mid: AppContext<F>|
                #[trigger] Self::created(old(self).context, old(self).windows@, mid)
                    && AppContext::rendered(mid, final(self).context, r),
    {
        self.create_windows();
        let ghost mid = self.context;
        let r = self.context.run();
        proof {
            assert(Self::created(old(self).context, old(self).windows@, mid));
        }
        r
    }
}

impl<C: CreateWindowHandler, F: Fn(Vec<Binding>) -> Vec<Binding>> Default for App<C, F> {
    /// The same as `App::new`.
    fn default() -> (r: Self)
        ensures
            r.wf(),
            r.windows@.len() == 0,
            r.context.windows@.len() == 0,
            r.context.resources.view() == Map::<TypeKey, AliasingCell>::empty(),
    {
        Self::new()
    }
}

/// The state a unit declaring only `State(k)` leaves behind, given the
/// state it received and the handles it handed back.
pub open spec fn state_left(received: Value, out: Seq<Binding>, k: TypeKey) -> Value {
    if out.len() > 0 && (out[0] matches Binding::State(h) && h.value.key() == k) {
        out[0]->State_0.value
    } else {
        received
    }
}

proof fn lemma_state_unit<F: Fn(Vec<Binding>) -> Vec<Binding>>(
    u: FunctionSystem<F>,
    k: TypeKey,
    c0: WindowContext,
    m0: Map<TypeKey, AliasingCell>,
    c1: WindowContext,
    m1: Map<TypeKey, AliasingCell>,
)
    requires
        u.params@ == seq![Param::State(k)],
        c0.state.value.key() == k,
        unit_outcome(u, c0, m0, c1, m1, Ok(())),
    ensures
        exists|a: Vec<Binding>, out: Vec<Binding>|
            a@ == seq![Binding::State(State { value: c0.state.value })] && #[trigger] call_ensures(u.f, (a,), out)
                && c1.state.value == state_left(c0.state.value, out@, k),
{
    let ps = u.params@;
    assert(extract_upto(ps, 0, c0, m0) == Ok::<Seq<Binding>, ExtractError>(Seq::<Binding>::empty()));
    assert(extract_all(ps, c0, m0) == Ok::<Seq<Binding>, ExtractError>(
        Seq::<Binding>::empty().push(Binding::State(State { value: c0.state.value })),
    ));
    assert(seq![Binding::State(State { value: c0.state.value })]
        =~= Seq::<Binding>::empty().push(Binding::State(State { value: c0.state.value })));
    let (a, out) = choose|a: Vec<Binding>, out: Vec<Binding>|
        a@ == extract_all(ps, c0, m0)->Ok_0 && #[trigger] call_ensures(u.f, (a,), out)
            && (c1, m1) == write_back(c0, m0, ps, out@);
    if out@.len() > 0 {
        assert(write_back(c0, m0, ps, out@) == write_upto(c0, m0, ps, out@, 1));
        let w = write_one(c0, m0, ps[0], out@[0]);
        assert(write_upto(w.0, w.1, ps, out@, 0) == w);
        assert(write_upto(c0, m0, ps, out@, 1) == w);
    }
    assert(c1.state.value == state_left(c0.state.value, out@, k));
}

/// A window's state persists across runs: over two runs that render every
/// window, the unit of window `j`, declaring only its state, hands back a
/// state in the first run that is stored, and receives in the second run
/// exactly the state the first run left.
pub proof fn state_persists_across_runs<F: Fn(Vec<Binding>) -> Vec<Binding>>(
    a0: AppContext<F>,
    a1: AppContext<F>,
    a2: AppContext<F>,
    j: int,
    k: TypeKey,
)
    requires
        AppContext::rendered(a0, a1, Ok(())),
        AppContext::rendered(a1, a2, Ok(())),
        0 <= j < a0.windows@.len(),
        a0.handlers@[j].render.params@ == seq![Param::State(k)],
        a0.windows@[j].state.value.key() == k,
    ensures
        exists|a: Vec<Binding>, out: Vec<Binding>|
            a@ == seq![Binding::State(State { value: a0.windows@[j].state.value })]
                && #[trigger] call_ensures(a0.handlers@[j].render.f, (a,), out)
                && a1.windows@[j].state.value == state_left(a0.windows@[j].state.value, out@, k),
        exists|a: Vec<Binding>, out: Vec<Binding>|
            a@ == seq![Binding::State(State { value: a1.windows@[j].state.value })]
                && #[trigger] call_ensures(a1.handlers@[j].render.f, (a,), out),
{
    let (ms1, k1) = choose|ms: Seq<Map<TypeKey, AliasingCell>>, k: int|
        #[trigger] window_trace(a0.handlers@, a0.windows@, a1.windows@, ms, k, Ok(()))
            && ms[0] == a0.resources.view() && ms[k] == a1.resources.view();
    let hs = a0.handlers@;
    assert(unit_outcome(hs[j].render, a0.windows@[j], ms1[j], a1.windows@[j], ms1[j + 1], Ok(())));
    lemma_state_unit(hs[j].render, k, a0.windows@[j], ms1[j], a1.windows@[j], ms1[j + 1]);
    let (ms2, k2) = choose|ms: Seq<Map<TypeKey, AliasingCell>>, k: int|
        #[trigger] window_trace(a1.handlers@, a1.windows@, a2.windows@, ms, k, Ok(()))
            && ms[0] == a1.resources.view() && ms[k] == a2.resources.view();
    let (a, out) = choose|a: Vec<Binding>, out: Vec<Binding>|
        a@ == seq![Binding::State(State { value: a0.windows@[j].state.value })]
            && #[trigger] call_ensures(hs[j].render.f, (a,), out)
            && a1.windows@[j].state.value == state_left(a0.windows@[j].state.value, out@, k);
    assert(a1.windows@[j].state.value.key() == k);
    assert(unit_outcome(hs[j].render, a1.windows@[j], ms2[j], a2.windows@[j], ms2[j + 1], Ok(())));
    lemma_state_unit(hs[j].render, k, a1.windows@[j], ms2[j], a2.windows@[j], ms2[j + 1]);
}

/// In the run that creates a window, its unit, declaring only state of the
/// type its constructor builds, receives exactly the state its own
/// constructor built, and the window keeps what the unit handed back.
pub proof fn new_window_sees_its_constructed_state<C: CreateWindowHandler, F: Fn(Vec<Binding>) -> Vec<Binding>>(
    before: AppContext<F>,
    pending: Seq<(C, WindowHandlers<F>)>,
    mid: AppContext<F>,
    after: AppContext<F>,
    j: int,
    k: TypeKey,
)
    requires
        App::<C, F>::created(before, pending, mid),
        AppContext::rendered(mid, after, Ok(())),
        0 <= j < pending.len(),
        pending[j].1.render.params@ == seq![Param::State(k)],
        pending[j].0.made().key() == k,
    ensures
        exists|a: Vec<Binding>, out: Vec<Binding>|
            a@ == seq![Binding::State(State { value: pending[j].0.made() })]
                && #[trigger] call_ensures(pending[j].1.render.f, (a,), out)
                && after.windows@[before.windows@.len() + j].state.value == state_left(pending[j].0.made(), out@, k),
{
    let w = before.windows@.len() + j;
    assert(mid.handlers@[w] == pending[j].1);
    assert(mid.windows@[w].state == idle_cell(pending[j].0.made()));
    let (ms, n) = choose|ms: Seq<Map<TypeKey, AliasingCell>>, n: int|
        #[trigger] window_trace(mid.handlers@, mid.windows@, after.windows@, ms, n, Ok(()))
            && ms[0] == mid.resources.view() && ms[n] == after.resources.view();
    assert(unit_outcome(mid.handlers@[w].render, mid.windows@[w], ms[w], after.windows@[w], ms[w + 1], Ok(())));
    lemma_state_unit(mid.handlers@[w].render, k, mid.windows@[w], ms[w], after.windows@[w], ms[w + 1]);
}

} // verus!
