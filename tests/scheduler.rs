use window_scheduler::app::{render, App, AppContext, Surface, Title, WindowContext};
use window_scheduler::cell::{AliasingCell, ExtractError};
use window_scheduler::param::{extract, Binding, Param, Res, ResMut, State};
use window_scheduler::scheduler::Scheduler;
use window_scheduler::store::TypeKeyedStore;
use window_scheduler::system::FunctionSystem;
use window_scheduler::value::{IntoSystemParam, TypeKey, Value};

type Unit = fn(Vec<Binding>) -> Vec<Binding>;

fn bump_resource(mut b: Vec<Binding>) -> Vec<Binding> {
    if let Binding::ResMut(h) = &mut b[0] {
        if let Value::Int(n) = h.value {
            assert!(h.set(Value::Int(n + 1)));
        }
    }
    b
}

fn bump_state(mut b: Vec<Binding>) -> Vec<Binding> {
    if let Binding::State(h) = &mut b[0] {
        if let Value::Int(n) = h.value {
            assert!(h.set(Value::Int(n + 1)));
        }
    }
    b
}

fn never_entered(_b: Vec<Binding>) -> Vec<Binding> {
    panic!("the unit body must not run")
}

fn keep(b: Vec<Binding>) -> Vec<Binding> {
    b
}

fn set_one(mut b: Vec<Binding>) -> Vec<Binding> {
    if let Binding::ResMut(h) = &mut b[0] {
        h.set(Value::Int(1));
    }
    b
}

fn double(mut b: Vec<Binding>) -> Vec<Binding> {
    if let Binding::ResMut(h) = &mut b[0] {
        if let Value::Int(n) = h.value {
            h.set(Value::Int(n * 2));
        }
    }
    b
}

fn scheduler_with(resources: Vec<Value>, systems: Vec<(Vec<Param>, Unit)>) -> Scheduler<Unit> {
    let mut s: Scheduler<Unit> = Scheduler::new();
    for r in resources {
        s.add_resource(r);
    }
    for (params, f) in systems {
        s.add_system(FunctionSystem::new(params, f));
    }
    s
}

#[test]
fn resource_round_trip() {
    let mut store = TypeKeyedStore::new();
    assert_eq!(store.get(TypeKey::Int), None);
    store.insert(Value::Int(7));
    store.insert(Value::Text("seven".to_string()));
    assert_eq!(store.get(TypeKey::Int), Some(Value::Int(7)));
    assert_eq!(store.get_checked(TypeKey::Text), Ok(Value::Text("seven".to_string())));
    store.insert(Value::Int(9));
    assert_eq!(store.get(TypeKey::Int), Some(Value::Int(9)));
    assert_eq!(store.entries.len(), 2);
}

#[test]
fn shared_binding_yields_stored_value() {
    let mut store = TypeKeyedStore::new();
    store.insert(Value::Int(-3));
    let mut ctx = WindowContext::new(Value::Unit);
    let r = extract(&vec![Param::Res(TypeKey::Int)], &mut ctx, &mut store);
    assert_eq!(r, Ok(vec![Binding::Res(Res::new(Value::Int(-3)))]));
    assert_eq!(store.entries[0].readers, 0);
    assert!(!store.entries[0].writer);
}

#[test]
fn never_inserted_resource_is_missing() {
    let mut store = TypeKeyedStore::new();
    assert_eq!(store.get_checked(TypeKey::Int), Err(ExtractError::MissingResource(TypeKey::Int)));
    let mut ctx = WindowContext::new(Value::Unit);
    let r = extract(&vec![Param::Res(TypeKey::Int)], &mut ctx, &mut store);
    assert_eq!(r, Err(ExtractError::MissingResource(TypeKey::Int)));
    let r = extract(&vec![Param::ResMut(TypeKey::Text)], &mut ctx, &mut store);
    assert_eq!(r, Err(ExtractError::MissingResource(TypeKey::Text)));
}

#[test]
fn state_of_another_type_is_a_mismatch() {
    let mut store = TypeKeyedStore::new();
    let mut ctx = WindowContext::new(Value::Text("mine".to_string()));
    let r = extract(&vec![Param::State(TypeKey::Int)], &mut ctx, &mut store);
    assert_eq!(
        r,
        Err(ExtractError::TypeMismatch { requested: TypeKey::Int, actual: TypeKey::Text })
    );
    assert!(!ctx.state.writer);
}

#[test]
fn checked_cast_reports_both_types() {
    assert_eq!(i64::from_value(&Value::Int(5)), Ok(5));
    assert_eq!(
        i64::from_value(&Value::Text("5".to_string())),
        Err(ExtractError::TypeMismatch { requested: TypeKey::Int, actual: TypeKey::Text })
    );
    assert_eq!(String::from_value(&Value::Text("a".to_string())), Ok("a".to_string()));
    assert_eq!(Title::from_value(&Value::Title(Title::new("t"))), Ok(Title::new("t")));
    assert_eq!(Surface::from_value(&Value::Unit).is_err(), true);
    assert_eq!(<()>::from_value(&Value::Unit), Ok(()));
    assert_eq!(42i64.into_value(), Value::Int(42));
    assert_eq!(<i64 as IntoSystemParam>::type_key(), TypeKey::Int);
}

#[test]
fn read_and_write_binding_conflict() {
    let mut s = scheduler_with(
        vec![Value::Int(1)],
        vec![(vec![Param::Res(TypeKey::Int), Param::ResMut(TypeKey::Int)], never_entered as Unit)],
    );
    assert_eq!(s.run(), Err(ExtractError::AlreadyBorrowed(TypeKey::Int)));
    assert_eq!(s.resources.get(TypeKey::Int), Some(Value::Int(1)));
    assert_eq!(s.resources.entries[0].readers, 0);
}

#[test]
fn two_write_bindings_conflict() {
    let mut s = scheduler_with(
        vec![Value::Int(1)],
        vec![(vec![Param::ResMut(TypeKey::Int), Param::ResMut(TypeKey::Int)], never_entered as Unit)],
    );
    assert_eq!(s.run(), Err(ExtractError::AlreadyBorrowed(TypeKey::Int)));
    assert!(!s.resources.entries[0].writer);
}

#[test]
fn write_then_read_binding_conflict() {
    let mut s = scheduler_with(
        vec![],
        vec![(vec![Param::ResMut(TypeKey::Title), Param::Res(TypeKey::Title)], never_entered as Unit)],
    );
    assert_eq!(s.run(), Err(ExtractError::AlreadyBorrowed(TypeKey::Title)));
}

#[test]
fn state_bound_twice_conflicts() {
    let mut s = scheduler_with(
        vec![],
        vec![(vec![Param::State(TypeKey::Unit), Param::State(TypeKey::Unit)], never_entered as Unit)],
    );
    assert_eq!(s.run(), Err(ExtractError::AlreadyBorrowed(TypeKey::Unit)));
    assert!(!s.context.state.writer);
}

#[test]
fn read_only_bindings_share_a_resource() {
    let mut s = scheduler_with(
        vec![Value::Int(3)],
        vec![
            (vec![Param::Res(TypeKey::Int)], keep as Unit),
            (vec![Param::Res(TypeKey::Int), Param::Res(TypeKey::Int)], keep as Unit),
            (vec![Param::Res(TypeKey::Int)], keep as Unit),
        ],
    );
    assert_eq!(s.run(), Ok(()));
    assert_eq!(s.resources.get(TypeKey::Int), Some(Value::Int(3)));
}

#[test]
fn mutable_resource_incremented_twice() {
    let mut s = scheduler_with(
        vec![Value::Int(42)],
        vec![(vec![Param::ResMut(TypeKey::Int)], bump_resource as Unit)],
    );
    assert_eq!(s.run(), Ok(()));
    assert_eq!(s.resources.get(TypeKey::Int), Some(Value::Int(43)));
    assert_eq!(s.run(), Ok(()));
    assert_eq!(s.resources.get(TypeKey::Int), Some(Value::Int(44)));
}

#[test]
fn units_run_in_registration_order() {
    let mut s = scheduler_with(
        vec![Value::Int(0)],
        vec![
            (vec![Param::ResMut(TypeKey::Int)], set_one as Unit),
            (vec![Param::ResMut(TypeKey::Int)], double as Unit),
        ],
    );
    assert_eq!(s.run(), Ok(()));
    assert_eq!(s.resources.get(TypeKey::Int), Some(Value::Int(2)));
}

#[test]
fn failing_unit_stops_the_run() {
    let mut s = scheduler_with(
        vec![Value::Int(10)],
        vec![
            (vec![Param::ResMut(TypeKey::Int)], bump_resource as Unit),
            (vec![Param::Res(TypeKey::Text)], never_entered as Unit),
            (vec![Param::ResMut(TypeKey::Int)], bump_resource as Unit),
        ],
    );
    assert_eq!(s.run(), Err(ExtractError::MissingResource(TypeKey::Text)));
    assert_eq!(s.resources.get(TypeKey::Int), Some(Value::Int(11)));
}

fn to_text(mut b: Vec<Binding>) -> Vec<Binding> {
    if let Binding::ResMut(h) = &mut b[0] {
        h.value = Value::Text("not an integer".to_string());
    }
    b
}

#[test]
fn write_of_another_type_is_not_stored() {
    let mut s = scheduler_with(vec![Value::Int(5)], vec![(vec![Param::ResMut(TypeKey::Int)], to_text as Unit)]);
    assert_eq!(s.run(), Ok(()));
    assert_eq!(s.resources.get(TypeKey::Int), Some(Value::Int(5)));
    assert_eq!(s.resources.get(TypeKey::Text), None);
}

#[test]
fn handle_set_refuses_another_type() {
    let mut h = ResMut::new(Value::Int(1));
    assert!(!h.set(Value::Unit));
    assert_eq!(h.get(), &Value::Int(1));
    assert!(h.set(Value::Int(2)));
    assert_eq!(h.get(), &Value::Int(2));
    let mut st = State::new(Value::Text("a".to_string()));
    assert!(!st.set(Value::Int(0)));
    assert!(st.set(Value::Text("b".to_string())));
    assert_eq!(st.get(), &Value::Text("b".to_string()));
}

#[test]
fn surface_binding_bypasses_guards() {
    let mut store = TypeKeyedStore::new();
    let mut ctx = WindowContext::new(Value::Unit);
    let r = extract(
        &vec![Param::Surface, Param::ResMut(TypeKey::Surface), Param::Surface],
        &mut ctx,
        &mut store,
    );
    assert_eq!(
        r,
        Ok(vec![
            Binding::Surface(Surface {}),
            Binding::ResMut(ResMut::new(Value::Surface(Surface {}))),
            Binding::Surface(Surface {}),
        ])
    );
}

#[test]
fn empty_unit_runs() {
    let mut s = scheduler_with(vec![], vec![(vec![], keep as Unit)]);
    assert_eq!(s.run(), Ok(()));
    let mut empty: Scheduler<Unit> = Scheduler::new();
    assert_eq!(empty.run(), Ok(()));
}

#[test]
fn aliasing_cell_guards() {
    let mut c = AliasingCell::new(Value::Int(0));
    assert_eq!(c.acquire_read(), Ok(()));
    assert_eq!(c.acquire_read(), Ok(()));
    assert_eq!(c.readers, 2);
    assert_eq!(c.acquire_write(), Err(ExtractError::AlreadyBorrowed(TypeKey::Int)));
    c.release_read();
    c.release_read();
    assert_eq!(c.acquire_write(), Ok(()));
    assert_eq!(c.acquire_read(), Err(ExtractError::AlreadyBorrowed(TypeKey::Int)));
    assert_eq!(c.acquire_write(), Err(ExtractError::AlreadyBorrowed(TypeKey::Int)));
    c.release_write();
    assert_eq!(c.readers, 0);
    assert!(!c.writer);
}

fn retitle(mut b: Vec<Binding>) -> Vec<Binding> {
    if let Binding::ResMut(h) = &mut b[0] {
        h.set(Value::Title(Title::new("Hello")));
    }
    b
}

#[test]
fn window_title_is_a_mutable_resource() {
    let mut app: App<Value, Unit> = App::new();
    app = app.window(Value::Unit, render(vec![Param::ResMut(TypeKey::Title)], retitle as Unit));
    assert_eq!(app.run(), Ok(()));
    assert_eq!(app.context.windows[0].title.value, Value::Title(Title::new("Hello")));
    let fresh = WindowContext::new(Value::Unit);
    assert_eq!(fresh.title.value, Value::Title(Title::new("Window")));
    assert_eq!(fresh.state().value, Value::Unit);
}

#[test]
fn state_persists_across_runs() {
    let mut app: App<Value, Unit> = App::new();
    app = app.window(Value::Int(0), render(vec![Param::State(TypeKey::Int)], bump_state as Unit));
    assert_eq!(app.run(), Ok(()));
    assert_eq!(app.windows.len(), 0);
    assert_eq!(app.run(), Ok(()));
    assert_eq!(app.run(), Ok(()));
    assert_eq!(app.context.windows.len(), 1);
    assert_eq!(app.context.windows[0].state.value, Value::Int(3));
}

#[test]
fn app_resource_incremented_twice() {
    let mut app: App<Value, Unit> = App::new();
    assert!(app.insert_resource(Value::Int(42)));
    app = app.window(Value::Unit, render(vec![Param::ResMut(TypeKey::Int)], bump_resource as Unit));
    assert_eq!(app.run(), Ok(()));
    assert_eq!(app.run(), Ok(()));
    assert_eq!(app.context.resources.get(TypeKey::Int), Some(Value::Int(44)));
}

fn expect_text(b: Vec<Binding>) -> Vec<Binding> {
    assert_eq!(b, vec![Binding::State(State::new(Value::Text("hello".to_string())))]);
    b
}

fn expect_int(b: Vec<Binding>) -> Vec<Binding> {
    assert_eq!(b, vec![Binding::State(State::new(Value::Int(7)))]);
    b
}

#[test]
fn windows_see_only_their_own_state() {
    let mut app: App<Value, Unit> = App::new();
    app = app
        .window(Value::Text("hello".to_string()), render(vec![Param::State(TypeKey::Text)], expect_text as Unit))
        .window(Value::Int(7), render(vec![Param::State(TypeKey::Int)], expect_int as Unit));
    assert_eq!(app.run(), Ok(()));
    assert_eq!(app.context.windows[0].state.value, Value::Text("hello".to_string()));
    assert_eq!(app.context.windows[1].state.value, Value::Int(7));

    let mut wrong: App<Value, Unit> = App::new();
    wrong = wrong.window(Value::Text("hello".to_string()), render(vec![Param::State(TypeKey::Int)], never_entered as Unit));
    assert_eq!(
        wrong.run(),
        Err(ExtractError::TypeMismatch { requested: TypeKey::Int, actual: TypeKey::Text })
    );
}

#[test]
fn stateless_window_holds_unit() {
    let mut app: App<(), Unit> = App::new();
    app = app.window((), render(vec![Param::State(TypeKey::Unit), Param::Surface], keep as Unit));
    assert_eq!(app.run(), Ok(()));
    assert_eq!(app.context.windows[0].state.value, Value::Unit);
}

#[test]
fn registered_window_is_fresh() {
    let mut ctx: AppContext<Unit> = AppContext::new();
    ctx.register(Value::Int(1), render(vec![], keep as Unit));
    assert_eq!(ctx.windows.len(), 1);
    assert_eq!(ctx.windows[0].state, AliasingCell::new(Value::Int(1)));
    assert_eq!(ctx.run(), Ok(()));
}

fn expect_custom_title(b: Vec<Binding>) -> Vec<Binding> {
    assert_eq!(b, vec![Binding::Res(Res::new(Value::Title(Title::new("Custom"))))]);
    b
}

#[test]
fn title_resource_reaches_its_binding() {
    let mut s = scheduler_with(
        vec![Value::Title(Title::new("Custom")), Value::Surface(Surface {})],
        vec![
            (vec![Param::Res(TypeKey::Title)], expect_custom_title as Unit),
            (vec![Param::ResMut(TypeKey::Surface)], keep as Unit),
        ],
    );
    assert_eq!(s.context.title.value, Value::Title(Title::new("Custom")));
    assert_eq!(s.resources.entries.len(), 0);
    assert_eq!(s.run(), Ok(()));
}

#[test]
fn app_refuses_window_owned_resources() {
    let mut app: App<Value, Unit> = App::default();
    assert!(!app.insert_resource(Value::Title(Title::new("Shared"))));
    assert!(!app.insert_resource(Value::Surface(Surface {})));
    assert_eq!(app.context.resources.entries.len(), 0);
    assert!(app.insert_resource(Value::Text("shared".to_string())));
    assert_eq!(app.context.resources.get(TypeKey::Text), Some(Value::Text("shared".to_string())));
}

fn demo_one(b: Vec<Binding>) -> Vec<Binding> {
    assert_eq!(
        b,
        vec![
            Binding::Res(Res::new(Value::Surface(Surface {}))),
            Binding::State(State::new(Value::Text("Hello World".to_string()))),
            Binding::ResMut(ResMut::new(Value::Title(Title::new("Window")))),
        ]
    );
    b
}

fn demo_two(b: Vec<Binding>) -> Vec<Binding> {
    assert_eq!(
        b,
        vec![
            Binding::Res(Res::new(Value::Title(Title::new("Window")))),
            Binding::State(State::new(Value::Int(42))),
        ]
    );
    b
}

#[test]
fn first_run_hands_each_window_its_constructed_state() {
    let mut app: App<Value, Unit> = App::default();
    app = app
        .window(
            Value::Text("Hello World".to_string()),
            render(
                vec![Param::Res(TypeKey::Surface), Param::State(TypeKey::Text), Param::ResMut(TypeKey::Title)],
                demo_one as Unit,
            ),
        )
        .window(Value::Int(42), render(vec![Param::Res(TypeKey::Title), Param::State(TypeKey::Int)], demo_two as Unit))
        .window(Value::Unit, render(vec![], keep as Unit));
    assert_eq!(app.run(), Ok(()));
    assert_eq!(app.context.windows.len(), 3);
    assert_eq!(app.context.windows[2].state.value, Value::Unit);
}
