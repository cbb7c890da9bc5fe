use vstd::prelude::*;

use crate::app::{Surface, WindowContext};
use crate::cell::{idle_cell, AliasingCell, ExtractError};
use crate::store::{lookup, TypeKeyedStore};
use crate::value::{TypeKey, Value};

verus! {

/// How one parameter of a unit binds to what its context offers.
#[derive(Clone, Copy, Debug, PartialEq, Eq, Structural)]
pub enum Param {
    /// A direct reference to the window's surface, outside the guard system.
    Surface,
    /// Shared read access to the resource of the given type.
    Res(TypeKey),
    /// Exclusive read-write access to the resource of the given type.
    ResMut(TypeKey),
    /// Exclusive read-write access to the window's state, which must be of
    /// the given type.
    State(TypeKey),
}

/// Which cell a guarded binding refers to.
#[derive(Clone, Copy, Debug, PartialEq, Eq, Structural)]
pub enum Loc {
    Title,
    Surface,
    State,
    Shared(TypeKey),
}

/// Read-only handle on a resource, valid for one invocation.
#[derive(Debug, PartialEq, Eq)]
pub struct Res {
    pub value: Value,
}

/// Read-write handle on a resource, valid for one invocation.
#[derive(Debug, PartialEq, Eq)]
pub struct ResMut {
    pub value: Value,
}

/// Read-write handle on a window's exclusive state, valid for one invocation.
#[derive(Debug, PartialEq, Eq)]
pub struct State {
    pub value: Value,
}

/// What one parameter was bound to.
#[derive(Debug, PartialEq, Eq)]
pub enum Binding {
    Surface(Surface),
    Res(Res),
    ResMut(ResMut),
    State(State),
}

impl Res {
    pub fn new(value: Value) -> (r: Self)
        ensures
            r.value == value,
    {
        Res { value }
    }

    pub fn get(&self) -> (r: &Value)
        ensures
            *r == self.value,
    {
        &self.value
    }
}

impl ResMut {
    pub fn new(value: Value) -> (r: Self)
        ensures
            r.value == value,
    {
        ResMut { value }
    }

    pub fn get(&self) -> (r: &Value)
        ensures
            *r == self.value,
    {
        &self.value
    }

    /// Replaces the value by `v` if it is of the same type; reports whether
    /// it did.
    pub fn set(&mut self, v: Value) -> (r: bool)
        ensures
            r == (v.key() == old(self).value.key()),
            final(self).value == if r { v } else { old(self).value },
    {
        if v.type_key() == self.value.type_key() {
            self.value = v;
            true
        } else {
            false
        }
    }
}

impl State {
    pub fn new(value: Value) -> (r: Self)
        ensures
            r.value == value,
    {
        State { value }
    }

    pub fn get(&self) -> (r: &Value)
        ensures
            *r == self.value,
    {
        &self.value
    }

    /// Replaces the state by `v` if it is of the same type; reports whether
    /// it did.
    pub fn set(&mut self, v: Value) -> (r: bool)
        ensures
            r == (v.key() == old(self).value.key()),
            final(self).value == if r { v } else { old(self).value },
    {
        if v.type_key() == self.value.type_key() {
            self.value = v;
            true
        } else {
            false
        }
    }
}

/// The cell a resource of type `k` is looked up in: a window's title and
/// surface are its own, every other type is shared.
pub open spec fn loc_of_key(k: TypeKey) -> Loc {
    match k {
        TypeKey::Title => Loc::Title,
        TypeKey::Surface => Loc::Surface,
        _ => Loc::Shared(k),
    }
}

/// The cell a binding takes a guard on; none for the direct surface.
pub open spec fn param_loc(p: Param) -> Option<Loc> {
    match p {
        Param::Surface => None,
        Param::Res(k) => Some(loc_of_key(k)),
        Param::ResMut(k) => Some(loc_of_key(k)),
        Param::State(_) => Some(Loc::State),
    }
}

/// Whether a binding takes a write guard.
pub open spec fn writes(p: Param) -> bool {
    p is ResMut || p is State
}

/// The cell at `l`, among the context's own cells and the shared entries.
pub open spec fn cell_at(ctx: WindowContext, m: Map<TypeKey, AliasingCell>, l: Loc) -> Option<AliasingCell> {
    match l {
        Loc::Title => Some(ctx.title),
        Loc::Surface => Some(ctx.surface),
        Loc::State => Some(ctx.state),
        Loc::Shared(k) => if m.dom().contains(k) {
            Some(m[k])
        } else {
            None
        },
    }
}

/// Number of the first `n` bindings that take a read guard at `l`.
pub open spec fn readers_before(ps: Seq<Param>, n: int, l: Loc) -> nat
    decreases n,
{
    if n <= 0 {
        0
    } else {
        readers_before(ps, n - 1, l) + if param_loc(ps[n - 1]) == Some(l) && !writes(ps[n - 1]) {
            1nat
        } else {
            0nat
        }
    }
}

/// Number of the first `n` bindings that take a write guard at `l`.
pub open spec fn writers_before(ps: Seq<Param>, n: int, l: Loc) -> nat
    decreases n,
{
    if n <= 0 {
        0
    } else {
        writers_before(ps, n - 1, l) + if param_loc(ps[n - 1]) == Some(l) && writes(ps[n - 1]) {
            1nat
        } else {
            0nat
        }
    }
}

/// What extracting binding `k` gives, once the bindings before it hold
/// their guards. `ctx` and `m` are the context and shared entries as they
/// stand before the invocation.
pub open spec fn extract_one(ps: Seq<Param>, k: int, ctx: WindowContext, m: Map<TypeKey, AliasingCell>) -> Result<Binding, ExtractError> {
    match ps[k] {
        Param::Surface => Ok(Binding::Surface(Surface {})),
        Param::Res(key) => match cell_at(ctx, m, loc_of_key(key)) {
            None => Err(ExtractError::MissingResource(key)),
            Some(c) => if writers_before(ps, k, loc_of_key(key)) > 0 {
                Err(ExtractError::AlreadyBorrowed(c.value.key()))
            } else {
                Ok(Binding::Res(Res { value: c.value }))
            },
        },
        Param::ResMut(key) => match cell_at(ctx, m, loc_of_key(key)) {
            None => Err(ExtractError::MissingResource(key)),
            Some(c) => if writers_before(ps, k, loc_of_key(key)) > 0 || readers_before(ps, k, loc_of_key(key)) > 0 {
                Err(ExtractError::AlreadyBorrowed(c.value.key()))
            } else {
                Ok(Binding::ResMut(ResMut { value: c.value }))
            },
        },
        Param::State(key) => if writers_before(ps, k, Loc::State) > 0 || readers_before(ps, k, Loc::State) > 0 {
            Err(ExtractError::AlreadyBorrowed(ctx.state.value.key()))
        } else if ctx.state.value.key() != key {
            Err(ExtractError::TypeMismatch { requested: key, actual: ctx.state.value.key() })
        } else {
            Ok(Binding::State(State { value: ctx.state.value }))
        },
    }
}

/// Extracting the first `n` bindings in order: the first failure, or what
/// each of them gives.
pub open spec fn extract_upto(ps: Seq<Param>, n: int, ctx: WindowContext, m: Map<TypeKey, AliasingCell>) -> Result<Seq<Binding>, ExtractError>
    decreases n,
{
    if n <= 0 {
        Ok(Seq::empty())
    } else {
        match extract_upto(ps, n - 1, ctx, m) {
            Err(e) => Err(e),
            Ok(bs) => match extract_one(ps, n - 1, ctx, m) {
                Err(e) => Err(e),
                Ok(b) => Ok(bs.push(b)),
            },
        }
    }
}

/// Extracting every binding of `ps`.
pub open spec fn extract_all(ps: Seq<Param>, ctx: WindowContext, m: Map<TypeKey, AliasingCell>) -> Result<Seq<Binding>, ExtractError> {
    extract_upto(ps, ps.len() as int, ctx, m)
}

/// Whether a guard of the given mode cannot be issued on `c`.
pub open spec fn conflicts(c: AliasingCell, write: bool) -> bool {
    c.writer || (write && c.readers > 0)
}

/// `c` after one more guard of the given mode was issued.
pub open spec fn granted(c: AliasingCell, write: bool) -> AliasingCell {
    if write {
        AliasingCell { writer: true, ..c }
    } else {
        AliasingCell { readers: (c.readers + 1) as usize, ..c }
    }
}

/// `c` after one guard of the given mode was released.
pub open spec fn released(c: AliasingCell, write: bool) -> AliasingCell {
    if write {
        AliasingCell { writer: false, ..c }
    } else {
        AliasingCell { readers: (c.readers - 1) as usize, ..c }
    }
}

/// `c0` while the first `n` bindings of `ps` hold their guards.
pub open spec fn held(c0: AliasingCell, ps: Seq<Param>, n: int, l: Loc) -> AliasingCell {
    AliasingCell {
        value: c0.value,
        readers: readers_before(ps, n, l) as usize,
        writer: writers_before(ps, n, l) > 0,
    }
}

pub open spec fn held_at(ctx0: WindowContext, m0: Map<TypeKey, AliasingCell>, ps: Seq<Param>, n: int, l: Loc) -> Option<AliasingCell> {
    match cell_at(ctx0, m0, l) {
        Some(c0) => Some(held(c0, ps, n, l)),
        None => None,
    }
}

/// The guards the first `n` bindings hold are consistent: at most one
/// writer per cell, and none on a cell that does not exist.
pub open spec fn guards_ok(ps: Seq<Param>, n: int, ctx0: WindowContext, m0: Map<TypeKey, AliasingCell>) -> bool {
    &&& forall|l: Loc| #[trigger] writers_before(ps, n, l) <= 1
    &&& forall|l: Loc| #[trigger] cell_at(ctx0, m0, l) is None
        ==> readers_before(ps, n, l) == 0 && writers_before(ps, n, l) == 0
}

/// The context and the shared entries hold no live guard.
pub open spec fn all_idle(ctx: WindowContext, m: Map<TypeKey, AliasingCell>) -> bool {
    &&& ctx.is_idle()
    &&& forall|k: TypeKey| #[trigger] m.dom().contains(k) ==> m[k].is_idle()
}

proof fn lemma_counts_bounded(ps: Seq<Param>, n: int, l: Loc)
    ensures
        readers_before(ps, n, l) <= if n < 0 { 0 } else { n },
        writers_before(ps, n, l) <= if n < 0 { 0 } else { n },
    decreases n,
{
    if n > 0 {
        lemma_counts_bounded(ps, n - 1, l);
    }
}

/// Once extraction has failed, extracting more bindings fails the same way.
proof fn lemma_failure_stays(ps: Seq<Param>, k: int, n: int, ctx: WindowContext, m: Map<TypeKey, AliasingCell>)
    requires
        0 <= k <= n,
        extract_upto(ps, k, ctx, m) is Err,
    ensures
        extract_upto(ps, n, ctx, m) == extract_upto(ps, k, ctx, m),
    decreases n - k,
{
    if n > k {
        lemma_failure_stays(ps, k, n - 1, ctx, m);
    }
}

impl Param {
    pub fn loc(&self) -> (r: Option<Loc>)
        ensures
            r == param_loc(*self),
    {
        match self {
            Param::Surface => None,
            Param::Res(k) => Some(key_loc(*k)),
            Param::ResMut(k) => Some(key_loc(*k)),
            Param::State(_) => Some(Loc::State),
        }
    }

    pub fn is_write(&self) -> (r: bool)
        ensures
            r == writes(*self),
    {
        match self {
            Param::ResMut(_) | Param::State(_) => true,
            _ => false,
        }
    }
}

pub fn key_loc(k: TypeKey) -> (r: Loc)
    ensures
        r == loc_of_key(k),
{
    match k {
        TypeKey::Title => Loc::Title,
        TypeKey::Surface => Loc::Surface,
        _ => Loc::Shared(k),
    }
}

/// Whether a cell exists at `l`.
fn has_cell(ctx: &WindowContext, store: &TypeKeyedStore, l: Loc) -> (r: bool)
    requires
        store.wf(),
    ensures
        r == cell_at(*ctx, store.view(), l) is Some,
{
    match l {
        Loc::Shared(k) => store.find(k).is_some(),
        _ => true,
    }
}

/// A copy of the value in the cell at `l`.
fn value_at(ctx: &WindowContext, store: &TypeKeyedStore, l: Loc) -> (r: Value)
    requires
        store.wf(),
        cell_at(*ctx, store.view(), l) is Some,
    ensures
        r == cell_at(*ctx, store.view(), l)->Some_0.value,
{
    match l {
        Loc::Title => ctx.title.value.duplicate(),
        Loc::Surface => ctx.surface.value.duplicate(),
        Loc::State => ctx.state.value.duplicate(),
        Loc::Shared(k) => {
            let i = store.find(k).unwrap();
            store.entries[i].value.duplicate()
        },
    }
}

/// Issues a guard of the given mode on the cell at `l`.
fn acquire_at(ctx: &mut WindowContext, store: &mut TypeKeyedStore, l: Loc, write: bool) -> (r: Result<(), ExtractError>)
    requires
        old(store).wf(),
        cell_at(*old(ctx), old(store).view(), l) is Some,
        cell_at(*old(ctx), old(store).view(), l)->Some_0.readers < usize::MAX,
    ensures
        final(store).wf(),
        ({
            let c = cell_at(*old(ctx), old(store).view(), l)->Some_0;
            if conflicts(c, write) {
                &&& r == Err::<(), ExtractError>(ExtractError::AlreadyBorrowed(c.value.key()))
                &&& *final(ctx) == *old(ctx)
                &&& final(store).view() == old(store).view()
            } else {
                &&& r is Ok
                &&& forall|l2: Loc| #[trigger] cell_at(*final(ctx), final(store).view(), l2)
                    == if l2 == l { Some(granted(c, write)) } else { cell_at(*old(ctx), old(store).view(), l2) }
            }
        }),
{
    match l {
        Loc::Title => if write { ctx.title.acquire_write() } else { ctx.title.acquire_read() },
        Loc::Surface => if write { ctx.surface.acquire_write() } else { ctx.surface.acquire_read() },
        Loc::State => if write { ctx.state.acquire_write() } else { ctx.state.acquire_read() },
        Loc::Shared(k) => {
            let i = store.find(k).unwrap();
            let ghost before = *store;
            let r = if write { store.entries[i].acquire_write() } else { store.entries[i].acquire_read() };
            proof {
                TypeKeyedStore::lemma_update(before, *store, i as int);
                assert(store.view() =~= before.view().insert(k, store.entries@[i as int]));
            }
            r
        },
    }
}

/// Releases a guard of the given mode on the cell at `l`.
fn release_at(ctx: &mut WindowContext, store: &mut TypeKeyedStore, l: Loc, write: bool)
    requires
        old(store).wf(),
        cell_at(*old(ctx), old(store).view(), l) is Some,
        write ==> cell_at(*old(ctx), old(store).view(), l)->Some_0.writer,
        !write ==> cell_at(*old(ctx), old(store).view(), l)->Some_0.readers > 0,
    ensures
        final(store).wf(),
        forall|l2: Loc| #[trigger] cell_at(*final(ctx), final(store).view(), l2)
            == if l2 == l {
                Some(released(cell_at(*old(ctx), old(store).view(), l)->Some_0, write))
            } else {
                cell_at(*old(ctx), old(store).view(), l2)
            },
{
    match l {
        Loc::Title => if write { ctx.title.release_write() } else { ctx.title.release_read() },
        Loc::Surface => if write { ctx.surface.release_write() } else { ctx.surface.release_read() },
        Loc::State => if write { ctx.state.release_write() } else { ctx.state.release_read() },
        Loc::Shared(k) => {
            let i = store.find(k).unwrap();
            let ghost before = *store;
            if write { store.entries[i].release_write() } else { store.entries[i].release_read() }
            proof {
                TypeKeyedStore::lemma_update(before, *store, i as int);
            }
        },
    }
}

/// Releases, last first, the guards that the first `n` bindings of `params`
/// hold on cells that were idle before.
fn release_upto(
    params: &Vec<Param>,
    n: usize,
    ctx: &mut WindowContext,
    store: &mut TypeKeyedStore,
    Ghost(ctx0): Ghost<WindowContext>,
    Ghost(m0): Ghost<Map<TypeKey, AliasingCell>>,
)
    requires
        old(store).wf(),
        n <= params@.len(),
        all_idle(ctx0, m0),
        guards_ok(params@, n as int, ctx0, m0),
        forall|l: Loc| #[trigger] cell_at(*old(ctx), old(store).view(), l)
            == held_at(ctx0, m0, params@, n as int, l),
    ensures
        final(store).wf(),
        *final(ctx) == ctx0,
        final(store).view() == m0,
{
    let ghost ps = params@;
    let mut m: usize = n;
    while m > 0
        invariant
            store.wf(),
            m <= n <= params@.len(),
            ps == params@,
            guards_ok(ps, m as int, ctx0, m0),
            forall|l: Loc| #[trigger] cell_at(*ctx, store.view(), l) == held_at(ctx0, m0, ps, m as int, l),
        decreases m,
    {
        let p = params[m - 1];
        match p.loc() {
            None => {},
            Some(l) => {
                let write = p.is_write();
                proof {
                    assert(cell_at(*ctx, store.view(), l) == held_at(ctx0, m0, ps, m as int, l));
                    if cell_at(ctx0, m0, l) is None {
                        assert(readers_before(ps, m as int, l) == 0 && writers_before(ps, m as int, l) == 0);
                    }
                    assert(writers_before(ps, m as int, l) <= 1);
                    lemma_counts_bounded(ps, m as int, l);
                    lemma_counts_bounded(ps, m - 1, l);
                }
                release_at(ctx, store, l, write);
            },
        }
        m = m - 1;
        proof {
            assert forall|l: Loc| #[trigger] writers_before(ps, m as int, l) <= 1 by {
                assert(writers_before(ps, m + 1, l) <= 1);
            }
            assert forall|l: Loc| #[trigger] cell_at(ctx0, m0, l) is None
                implies readers_before(ps, m as int, l) == 0 && writers_before(ps, m as int, l) == 0 by {
                assert(readers_before(ps, m + 1, l) == 0 && writers_before(ps, m + 1, l) == 0);
            }
            assert forall|l: Loc| #[trigger] cell_at(*ctx, store.view(), l) == held_at(ctx0, m0, ps, m as int, l) by {
                lemma_counts_bounded(ps, m as int, l);
                lemma_counts_bounded(ps, m + 1, l);
            }
        }
    }
    proof {
        assert(cell_at(*ctx, store.view(), Loc::Title) == held_at(ctx0, m0, ps, 0, Loc::Title));
        assert(cell_at(*ctx, store.view(), Loc::Surface) == held_at(ctx0, m0, ps, 0, Loc::Surface));
        assert(cell_at(*ctx, store.view(), Loc::State) == held_at(ctx0, m0, ps, 0, Loc::State));
        assert forall|k: TypeKey| #[trigger] store.view().dom().contains(k) == m0.dom().contains(k)
            && (m0.dom().contains(k) ==> store.view()[k] == m0[k]) by {
            assert(cell_at(*ctx, store.view(), Loc::Shared(k)) == held_at(ctx0, m0, ps, 0, Loc::Shared(k)));
        }
        assert(store.view() =~= m0);
    }
}

/// Extracts binding `k` while the bindings before it hold their guards.
/// On failure every guard, those of the earlier bindings too, is released.
fn extract_step(
    params: &Vec<Param>,
    k: usize,
    ctx: &mut WindowContext,
    store: &mut TypeKeyedStore,
    Ghost(ctx0): Ghost<WindowContext>,
    Ghost(m0): Ghost<Map<TypeKey, AliasingCell>>,
) -> (r: Result<Binding, ExtractError>)
    requires
        old(store).wf(),
        k < params@.len(),
        all_idle(ctx0, m0),
        guards_ok(params@, k as int, ctx0, m0),
        forall|l: Loc| #[trigger] cell_at(*old(ctx), old(store).view(), l)
            == held_at(ctx0, m0, params@, k as int, l),
    ensures
        final(store).wf(),
        r == extract_one(params@, k as int, ctx0, m0),
        r is Ok ==> guards_ok(params@, k + 1, ctx0, m0) && forall|l: Loc|
            #[trigger] cell_at(*final(ctx), final(store).view(), l) == held_at(ctx0, m0, params@, k + 1, l),
        r is Err ==> *final(ctx) == ctx0 && final(store).view() == m0,
{
    let ghost ps = params@;
    proof {
        assert(params.len() <= usize::MAX);
    }
    let p = params[k];
    let l = match p.loc() {
        None => {
            proof {
                assert forall|l: Loc| #[trigger] cell_at(*ctx, store.view(), l)
                    == held_at(ctx0, m0, ps, k + 1, l) by {
                    assert(cell_at(*ctx, store.view(), l) == held_at(ctx0, m0, ps, k as int, l));
                }
                assert forall|l: Loc| #[trigger] writers_before(ps, k + 1, l) <= 1 by {
                    assert(writers_before(ps, k as int, l) <= 1);
                }
                assert forall|l: Loc| #[trigger] cell_at(ctx0, m0, l) is None
                    implies readers_before(ps, k + 1, l) == 0 && writers_before(ps, k + 1, l) == 0 by {
                    assert(readers_before(ps, k as int, l) == 0 && writers_before(ps, k as int, l) == 0);
                }
            }
            return Ok(Binding::Surface(Surface {}));
        },
        Some(l) => l,
    };
    let write = p.is_write();
    proof {
        assert(cell_at(*ctx, store.view(), l) == held_at(ctx0, m0, ps, k as int, l));
        lemma_counts_bounded(ps, k as int, l);
    }
    if !has_cell(ctx, store, l) {
        release_upto(params, k, ctx, store, Ghost(ctx0), Ghost(m0));
        return match p {
            Param::Res(key) => Err(ExtractError::MissingResource(key)),
            Param::ResMut(key) => Err(ExtractError::MissingResource(key)),
            _ => Err(ExtractError::MissingResource(TypeKey::Unit)),
        };
    }
    let ghost ctx1 = *ctx;
    let ghost m1 = store.view();
    match acquire_at(ctx, store, l, write) {
        Err(e) => {
            release_upto(params, k, ctx, store, Ghost(ctx0), Ghost(m0));
            return Err(e);
        },
        Ok(()) => {},
    }
    proof {
        assert forall|l2: Loc| #[trigger] cell_at(*ctx, store.view(), l2)
            == held_at(ctx0, m0, ps, k + 1, l2) by {
            assert(cell_at(ctx1, m1, l2) == held_at(ctx0, m0, ps, k as int, l2));
            lemma_counts_bounded(ps, k as int, l2);
            lemma_counts_bounded(ps, k + 1, l2);
        }
        assert forall|l2: Loc| #[trigger] writers_before(ps, k + 1, l2) <= 1 by {
            assert(writers_before(ps, k as int, l2) <= 1);
        }
        assert forall|l2: Loc| #[trigger] cell_at(ctx0, m0, l2) is None
            implies readers_before(ps, k + 1, l2) == 0 && writers_before(ps, k + 1, l2) == 0 by {
            assert(readers_before(ps, k as int, l2) == 0 && writers_before(ps, k as int, l2) == 0);
        }
    }
    let v = value_at(ctx, store, l);
    match p {
        Param::State(key) => {
            if v.type_key() != key {
                let actual = v.type_key();
                release_upto(params, k + 1, ctx, store, Ghost(ctx0), Ghost(m0));
                Err(ExtractError::TypeMismatch { requested: key, actual })
            } else {
                Ok(Binding::State(State::new(v)))
            }
        },
        Param::ResMut(_) => Ok(Binding::ResMut(ResMut::new(v))),
        _ => Ok(Binding::Res(Res::new(v))),
    }
}

/// Extracts every binding of `params` from the context and the shared
/// entries, in declaration order, each taking its guard before the next is
/// tried; stops at the first failure. All guards are released before it
/// returns, so the context and the entries are left as they were.
pub fn extract(params: &Vec<Param>, ctx: &mut WindowContext, store: &mut TypeKeyedStore) -> (r: Result<Vec<Binding>, ExtractError>)
    requires
        old(store).wf(),
        all_idle(*old(ctx), old(store).view()),
    ensures
        final(store).wf(),
        *final(ctx) == *old(ctx),
        final(store).view() == old(store).view(),
        match extract_all(params@, *old(ctx), old(store).view()) {
            Ok(bs) => r matches Ok(v) && v@ == bs,
            Err(e) => r == Err::<Vec<Binding>, ExtractError>(e),
        },
{
    let ghost ps = params@;
    let ghost ctx0 = *ctx;
    let ghost m0 = store.view();
    let mut bound: Vec<Binding> = Vec::new();
    let mut k: usize = 0;
    proof {
        assert forall|l: Loc| #[trigger] cell_at(*ctx, store.view(), l) == held_at(ctx0, m0, ps, 0, l) by {}
    }
    while k < params.len()
        invariant
            store.wf(),
            k <= params@.len(),
            ps == params@,
            ctx0 == *old(ctx),
            m0 == old(store).view(),
            all_idle(ctx0, m0),
            guards_ok(ps, k as int, ctx0, m0),
            forall|l: Loc| #[trigger] cell_at(*ctx, store.view(), l) == held_at(ctx0, m0, ps, k as int, l),
            extract_upto(ps, k as int, ctx0, m0) == Ok::<Seq<Binding>, ExtractError>(bound@),
        decreases params@.len() - k,
    {
        match extract_step(params, k, ctx, store, Ghost(ctx0), Ghost(m0)) {
            Err(e) => {
                proof {
                    assert(extract_upto(ps, k + 1, ctx0, m0) == Err::<Seq<Binding>, ExtractError>(e));
                    lemma_failure_stays(ps, k + 1, ps.len() as int, ctx0, m0);
                }
                return Err(e);
            },
            Ok(b) => {
                bound.push(b);
            },
        }
        k = k + 1;
    }
    release_upto(params, k, ctx, store, Ghost(ctx0), Ghost(m0));
    Ok(bound)
}

/// Every binding before `n` extracts successfully when the first `n` do.
proof fn lemma_prefix_ok(ps: Seq<Param>, i: int, n: int, ctx: WindowContext, m: Map<TypeKey, AliasingCell>)
    requires
        0 <= i < n,
        extract_upto(ps, n, ctx, m) is Ok,
    ensures
        extract_one(ps, i, ctx, m) is Ok,
        extract_upto(ps, i, ctx, m) is Ok,
    decreases n,
{
    if i < n - 1 {
        lemma_prefix_ok(ps, i, n - 1, ctx, m);
    }
}

/// When the bindings before `j` extract and binding `j` fails, extraction
/// as a whole fails with the same error.
proof fn lemma_first_failure(ps: Seq<Param>, j: int, ctx: WindowContext, m: Map<TypeKey, AliasingCell>)
    requires
        0 <= j < ps.len(),
        extract_upto(ps, j, ctx, m) is Ok,
        extract_one(ps, j, ctx, m) is Err,
    ensures
        extract_all(ps, ctx, m) == Err::<Seq<Binding>, ExtractError>(extract_one(ps, j, ctx, m)->Err_0),
{
    lemma_failure_stays(ps, j + 1, ps.len() as int, ctx, m);
}

/// Counts of guards only grow along the bindings.
proof fn lemma_counts_grow(ps: Seq<Param>, i: int, n: int, l: Loc)
    requires
        0 <= i < n,
        param_loc(ps[i]) == Some(l),
    ensures
        writes(ps[i]) ==> writers_before(ps, n, l) >= 1,
        !writes(ps[i]) ==> readers_before(ps, n, l) >= 1,
    decreases n,
{
    if i < n - 1 {
        lemma_counts_grow(ps, i, n - 1, l);
    }
}

/// The context and shared entries after storing resource `v` where a
/// binding to its type looks: a title or a surface replaces the window's
/// own, any other type goes to the shared entries.
pub open spec fn placed(ctx: WindowContext, m: Map<TypeKey, AliasingCell>, v: Value) -> (WindowContext, Map<TypeKey, AliasingCell>) {
    match loc_of_key(v.key()) {
        Loc::Title => (WindowContext { title: idle_cell(v), ..ctx }, m),
        Loc::Surface => (WindowContext { surface: idle_cell(v), ..ctx }, m),
        _ => (ctx, m.insert(v.key(), idle_cell(v))),
    }
}

/// A resource stored under its own type is found again under that type:
/// the cell a binding to the type looks at holds the stored value, a shared
/// binding to it yields a handle on that value, and a shared entry is found
/// by lookup.
pub proof fn stored_resource_round_trip(ctx: WindowContext, m: Map<TypeKey, AliasingCell>, v: Value)
    ensures
        cell_at(placed(ctx, m, v).0, placed(ctx, m, v).1, loc_of_key(v.key())) == Some(idle_cell(v)),
        extract_all(seq![Param::Res(v.key())], placed(ctx, m, v).0, placed(ctx, m, v).1)
            == Ok::<Seq<Binding>, ExtractError>(seq![Binding::Res(Res { value: v })]),
        loc_of_key(v.key()) is Shared ==> lookup(placed(ctx, m, v).1, v.key()) == Some(v),
{
    let ps = seq![Param::Res(v.key())];
    let (c2, m2) = placed(ctx, m, v);
    assert(extract_upto(ps, 0, c2, m2) == Ok::<Seq<Binding>, ExtractError>(Seq::<Binding>::empty()));
    assert(seq![Binding::Res(Res { value: v })] =~= Seq::<Binding>::empty().push(Binding::Res(Res { value: v })));
}

/// A binding to a resource that was never stored, or to state of another
/// type than the window's, never yields handles: extraction fails, with
/// `MissingResource` or `TypeMismatch` when every binding before it was
/// extracted (an earlier write guard on the state gives `AlreadyBorrowed`).
pub proof fn unavailable_binding_fails(ps: Seq<Param>, j: int, ctx: WindowContext, m: Map<TypeKey, AliasingCell>)
    requires
        0 <= j < ps.len(),
        match ps[j] {
            Param::Res(k) => cell_at(ctx, m, loc_of_key(k)) is None,
            Param::ResMut(k) => cell_at(ctx, m, loc_of_key(k)) is None,
            Param::State(k) => ctx.state.value.key() != k,
            Param::Surface => false,
        },
    ensures
        extract_all(ps, ctx, m) is Err,
        extract_upto(ps, j, ctx, m) is Ok ==> match ps[j] {
            Param::Res(k) => extract_all(ps, ctx, m) == Err::<Seq<Binding>, ExtractError>(ExtractError::MissingResource(k)),
            Param::ResMut(k) => extract_all(ps, ctx, m) == Err::<Seq<Binding>, ExtractError>(ExtractError::MissingResource(k)),
            Param::State(k) => extract_all(ps, ctx, m) == Err::<Seq<Binding>, ExtractError>(
                ExtractError::TypeMismatch { requested: k, actual: ctx.state.value.key() },
            ) || extract_all(ps, ctx, m) == Err::<Seq<Binding>, ExtractError>(
                ExtractError::AlreadyBorrowed(ctx.state.value.key()),
            ),
            Param::Surface => true,
        },
{
    if extract_upto(ps, j, ctx, m) is Ok {
        lemma_first_failure(ps, j, ctx, m);
    } else {
        lemma_failure_stays(ps, j, ps.len() as int, ctx, m);
    }
}

/// Two bindings of one unit to the same cell, at least one of them
/// read-write, make extraction fail; when every binding before the second
/// was extracted, the failure is `AlreadyBorrowed`.
pub proof fn conflicting_bindings_fail(ps: Seq<Param>, i: int, j: int, ctx: WindowContext, m: Map<TypeKey, AliasingCell>)
    requires
        0 <= i < j < ps.len(),
        param_loc(ps[i]) is Some,
        param_loc(ps[i]) == param_loc(ps[j]),
        writes(ps[i]) || writes(ps[j]),
    ensures
        extract_all(ps, ctx, m) is Err,
        extract_upto(ps, j, ctx, m) is Ok ==> extract_all(ps, ctx, m) matches Err(ExtractError::AlreadyBorrowed(_)),
{
    let l = param_loc(ps[i])->Some_0;
    if extract_upto(ps, j, ctx, m) is Ok {
        lemma_prefix_ok(ps, i, j, ctx, m);
        lemma_counts_grow(ps, i, j, l);
        assert(extract_one(ps, j, ctx, m) matches Err(ExtractError::AlreadyBorrowed(_)));
        lemma_first_failure(ps, j, ctx, m);
    } else {
        lemma_failure_stays(ps, j, ps.len() as int, ctx, m);
    }
}

/// Bindings that only read never conflict with one another: when every
/// binding is a shared read of an existing resource, extraction succeeds.
pub proof fn shared_reads_succeed(ps: Seq<Param>, ctx: WindowContext, m: Map<TypeKey, AliasingCell>)
    requires
        forall|i: int| 0 <= i < ps.len() ==> ((#[trigger] ps[i]) matches Param::Res(k) && cell_at(ctx, m, loc_of_key(k)) is Some),
    ensures
        extract_all(ps, ctx, m) is Ok,
{
    lemma_reads_upto(ps, ps.len() as int, ctx, m);
}

proof fn lemma_reads_upto(ps: Seq<Param>, n: int, ctx: WindowContext, m: Map<TypeKey, AliasingCell>)
    requires
        0 <= n <= ps.len(),
        forall|i: int| 0 <= i < ps.len() ==> ((#[trigger] ps[i]) matches Param::Res(k) && cell_at(ctx, m, loc_of_key(k)) is Some),
    ensures
        extract_upto(ps, n, ctx, m) is Ok,
        forall|l: Loc| #[trigger] writers_before(ps, n, l) == 0,
    decreases n,
{
    if n > 0 {
        lemma_reads_upto(ps, n - 1, ctx, m);
        assert(ps[n - 1] matches Param::Res(k) && cell_at(ctx, m, loc_of_key(k)) is Some);
        assert forall|l: Loc| #[trigger] writers_before(ps, n, l) == 0 by {
            assert(writers_before(ps, n - 1, l) == 0);
        }
    }
}

} // verus!
