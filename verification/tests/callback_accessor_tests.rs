use std::any::Any;

use guee::callback::Callback;
use guee::callback::DispatchedExternalCallback;
use guee::callback_accessor::CallbackAccessor;
use guee::type_tag::TypeTag;

type Step = for<'a> fn(&'a mut dyn Any) -> &'a mut dyn Any;

#[derive(Default)]
struct State {
    foo: Foo,
    bar: Bar,
}

#[derive(Default)]
struct Foo {
    baz: Baz,
}

#[derive(Default)]
struct Bar {
    x: f32,
}

#[derive(Default)]
struct Baz {
    y: f32,
}

fn state_to_foo(state: &mut dyn Any) -> &mut dyn Any {
    &mut state.downcast_mut::<State>().expect("Failed downcast").foo
}

fn state_to_bar(state: &mut dyn Any) -> &mut dyn Any {
    &mut state.downcast_mut::<State>().expect("Failed downcast").bar
}

fn foo_to_baz(foo: &mut dyn Any) -> &mut dyn Any {
    &mut foo.downcast_mut::<Foo>().expect("Failed downcast").baz
}

#[test]
fn test_drill_down() {
    let state_cba = CallbackAccessor::<Step>::root();

    let foo_cba = state_cba.drill_down(state_to_foo as Step);
    let baz_cba = foo_cba.drill_down(foo_to_baz as Step);
    let bar_cba = state_cba.drill_down(state_to_bar as Step);

    let mut test_state = State::default();

    let foo_dyn = foo_cba.access_any(&mut test_state as &mut dyn Any);
    let _foo: &mut Foo = foo_dyn.downcast_mut().unwrap();

    let bar_dyn = bar_cba.access_any(&mut test_state as &mut dyn Any);
    let bar: &mut Bar = bar_dyn.downcast_mut().unwrap();
    bar.x = 42.0;

    let baz_dyn = baz_cba.access_any(&mut test_state as &mut dyn Any);
    let baz: &mut Baz = baz_dyn.downcast_mut().unwrap();
    baz.y = 123.4;

    assert_eq!(test_state.foo.baz.y, 123.4);
    assert_eq!(test_state.bar.x, 42.0);
}

#[test]
fn the_root_accessor_stays_at_the_root() {
    let root = CallbackAccessor::<Step>::root();
    assert_eq!(root.depth(), 0);
    let mut state = State::default();
    state.bar.x = 2.0;
    let same = root.access_any(&mut state as &mut dyn Any);
    assert_eq!(same.downcast_ref::<State>().unwrap().bar.x, 2.0);
}

#[test]
fn drilling_down_leaves_the_shorter_way_as_it_was() {
    let root = CallbackAccessor::<Step>::root();
    let foo = root.drill_down(state_to_foo as Step);
    let baz = foo.drill_down(foo_to_baz as Step);
    assert_eq!(root.depth(), 0);
    assert_eq!(foo.depth(), 1);
    assert_eq!(baz.depth(), 2);
    assert_eq!(baz.clone().depth(), 2);
}

#[test]
fn a_callback_of_an_accessor_acts_on_the_part_it_leads_to() {
    let baz_cba =
        CallbackAccessor::<Step>::root().drill_down(state_to_foo as Step).drill_down(foo_to_baz as Step);
    let callback = baz_cba.callback(TypeTag(1), |baz: &mut dyn Any, amount: f32| {
        baz.downcast_mut::<Baz>().expect("Failed downcast").y += amount;
    });
    let mut state = State::default();
    state.foo.baz.y = 1.0;
    match callback {
        Callback::External(ext) => {
            assert_eq!(ext.input_type, TypeTag(1));
            DispatchedExternalCallback::new(ext, 2.5f32).invoke(&mut state as &mut dyn Any);
        }
        Callback::Internal { .. } => panic!("an accessor makes external callbacks"),
    }
    assert_eq!(state.foo.baz.y, 3.5);
    assert_eq!(state.bar.x, 0.0);
}

#[test]
fn running_on_a_part_writes_into_the_root() {
    let bar_cba = CallbackAccessor::<Step>::root().drill_down(state_to_bar as Step);
    let mut state = State::default();
    state.foo.baz.y = 9.0;
    bar_cba.run_on_part(
        |bar: &mut dyn Any, amount: f32| bar.downcast_mut::<Bar>().expect("Failed downcast").x = amount,
        &mut state as &mut dyn Any,
        4.5f32,
    );
    assert_eq!(state.bar.x, 4.5);
    assert_eq!(state.foo.baz.y, 9.0);

    CallbackAccessor::<Step>::root().run_on_part(
        |root: &mut dyn Any, amount: f32| root.downcast_mut::<State>().expect("Failed downcast").bar.x += amount,
        &mut state as &mut dyn Any,
        1.0f32,
    );
    assert_eq!(state.bar.x, 5.5);
}
