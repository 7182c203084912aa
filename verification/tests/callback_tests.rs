use std::any::Any;
use std::any::TypeId;
use std::collections::hash_map::DefaultHasher;
use std::hash::Hash;
use std::hash::Hasher;

use guee::accessor::AccessError;
use guee::accessor::AccessorRegistry;
use guee::callback::Callback;
use guee::callback::DispatchedCallbackStorage;
use guee::callback::DispatchedExternalCallback;
use guee::callback::ExternalCallback;
use guee::type_tag::TypeTag;

type Accessor = Box<dyn for<'a> Fn(&'a mut dyn Any) -> &'a mut dyn Any>;
type Handler = Box<dyn FnOnce(&mut dyn Any, ())>;

fn tag<T: 'static>() -> TypeTag {
    let mut hasher = DefaultHasher::new();
    TypeId::of::<T>().hash(&mut hasher);
    TypeTag(hasher.finish())
}

fn accessor<T: 'static, U: 'static>(f: fn(&mut T) -> &mut U) -> Accessor {
    fn funnel<C>(c: C) -> C
    where
        C: for<'a> Fn(&'a mut dyn Any) -> &'a mut dyn Any,
    {
        c
    }
    Box::new(funnel(move |any| f(any.downcast_mut().expect("Failed downcast"))))
}

fn handler<T: 'static>(f: impl FnOnce(&mut T, ()) + 'static) -> Handler {
    Box::new(move |any: &mut dyn Any, p: ()| f(any.downcast_mut().expect("Failed downcast"), p))
}

fn register<T: 'static, U: 'static>(registry: &mut AccessorRegistry<Accessor>, f: fn(&mut T) -> &mut U) {
    registry.register_accessor(tag::<T>(), tag::<U>(), accessor(f));
}

#[derive(Default)]
struct State {
    foo: Foo,
    bar: Bar,
}

#[derive(Default)]
struct Foo {
    baz: Baz,
}

#[derive(Default)]
struct Bar {
    x: f32,
}

#[derive(Default)]
struct Baz {
    y: f32,
}

fn state_registry() -> AccessorRegistry<Accessor> {
    let mut registry = AccessorRegistry::new();
    register(&mut registry, |state: &mut State| &mut state.foo);
    register(&mut registry, |state: &mut State| &mut state.bar);
    register(&mut registry, |state: &mut Foo| &mut state.baz);
    registry
}

#[test]
fn test_accessor_regitry() {
    let registry = state_registry();

    let mut state = State::default();

    let bar_dyn = registry.access(&mut state as &mut dyn Any, tag::<State>(), tag::<Bar>()).unwrap();
    let Bar { ref mut x } = bar_dyn.downcast_mut().unwrap();
    *x = 42.0;

    let baz_dyn: &mut dyn Any =
        registry.access(&mut state as &mut dyn Any, tag::<State>(), tag::<Baz>()).unwrap();
    let Baz { ref mut y } = baz_dyn.downcast_mut().unwrap();
    *y = 9.99;

    assert_eq!(state.bar.x, 42.0);
    assert_eq!(state.foo.baz.y, 9.99);

    let mut storage: DispatchedCallbackStorage<Handler, ()> = DispatchedCallbackStorage::new();

    storage.dispatch_callback(Callback::from_fn(tag::<Bar>(), handler(|bar: &mut Bar, _| bar.x = 123.4)), ());
    storage.dispatch_callback(Callback::from_fn(tag::<Baz>(), handler(|baz: &mut Baz, _| baz.y = 432.1)), ());
    storage.end_frame(&mut state as &mut dyn Any, tag::<State>(), &registry).unwrap();

    assert_eq!(state.bar.x, 123.4);
    assert_eq!(state.foo.baz.y, 432.1);
}

#[test]
fn test_internal_callbacks() {
    let mut storage: DispatchedCallbackStorage<Handler, String> = DispatchedCallbackStorage::new();
    let (cb, tk) = storage.create_internal_callback();
    assert_eq!(storage.poll_callback_result(tk), None);
    storage.dispatch_callback(cb, "TestString".to_string());
    assert_eq!(storage.poll_callback_result(tk).unwrap(), "TestString");
}

#[test]
fn callback_for_nested_state_changes_only_that_state() {
    let registry = state_registry();
    let mut state = State::default();
    state.bar.x = 1.5;

    let mut storage: DispatchedCallbackStorage<Handler, ()> = DispatchedCallbackStorage::new();
    storage.dispatch_callback(Callback::from_fn(tag::<Baz>(), handler(|baz: &mut Baz, _| baz.y = 7.0)), ());
    let result = storage.end_frame(&mut state as &mut dyn Any, tag::<State>(), &registry);

    assert_eq!(result, Ok(()));
    assert_eq!(state.foo.baz.y, 7.0);
    assert_eq!(state.bar.x, 1.5);
}

#[test]
fn callback_for_the_root_type_runs_on_the_root() {
    let registry = state_registry();
    let mut state = State::default();
    let mut storage: DispatchedCallbackStorage<Handler, ()> = DispatchedCallbackStorage::new();
    storage.dispatch_callback(
        Callback::from_fn(tag::<State>(), handler(|state: &mut State, _| state.bar.x = 3.0)),
        (),
    );
    assert_eq!(storage.end_frame(&mut state as &mut dyn Any, tag::<State>(), &registry), Ok(()));
    assert_eq!(state.bar.x, 3.0);
}

#[test]
fn find_path_gives_the_types_passed_through() {
    let registry = state_registry();
    assert_eq!(
        registry.find_path(tag::<State>(), tag::<Baz>()),
        Ok(vec![tag::<State>(), tag::<Foo>(), tag::<Baz>()])
    );
    assert_eq!(registry.find_path(tag::<State>(), tag::<Bar>()), Ok(vec![tag::<State>(), tag::<Bar>()]));
    assert_eq!(registry.find_path(tag::<Foo>(), tag::<Foo>()), Ok(vec![tag::<Foo>()]));
}

#[test]
fn find_path_without_a_chain_is_no_path() {
    let registry = state_registry();
    assert_eq!(registry.find_path(tag::<Bar>(), tag::<Baz>()), Err(AccessError::NoPath));
    assert_eq!(registry.find_path(tag::<Baz>(), tag::<State>()), Err(AccessError::NoPath));
    let empty: AccessorRegistry<Accessor> = AccessorRegistry::new();
    assert_eq!(empty.find_path(TypeTag(1), TypeTag(2)), Err(AccessError::NoPath));
}

fn numbered_registry(hops: &[(u64, u64)]) -> AccessorRegistry<Accessor> {
    let mut registry: AccessorRegistry<Accessor> = AccessorRegistry::new();
    for (from, to) in hops {
        registry.register_accessor(TypeTag(*from), TypeTag(*to), Box::new(|any| any));
    }
    registry
}

#[test]
fn find_path_reports_a_cycle() {
    let registry = numbered_registry(&[(1, 2), (2, 3), (3, 1)]);
    assert_eq!(registry.find_path(TypeTag(1), TypeTag(9)), Err(AccessError::Cycle));
    // The target is found before the search comes round.
    assert_eq!(
        registry.find_path(TypeTag(1), TypeTag(3)),
        Ok(vec![TypeTag(1), TypeTag(2), TypeTag(3)])
    );
    let own = numbered_registry(&[(1, 1)]);
    assert_eq!(own.find_path(TypeTag(1), TypeTag(2)), Err(AccessError::Cycle));
}

#[test]
fn find_path_passes_through_a_shared_type_twice() {
    // Two ways lead to 4; neither leads to 5. That is no cycle.
    let registry = numbered_registry(&[(1, 2), (1, 3), (2, 4), (3, 4)]);
    assert_eq!(registry.find_path(TypeTag(1), TypeTag(5)), Err(AccessError::NoPath));
    assert_eq!(
        registry.find_path(TypeTag(1), TypeTag(4)),
        Ok(vec![TypeTag(1), TypeTag(2), TypeTag(4)])
    );
}

#[test]
fn find_path_tries_accessors_in_the_order_of_registration() {
    let registry = numbered_registry(&[(1, 3), (1, 2), (3, 4), (2, 4)]);
    assert_eq!(
        registry.find_path(TypeTag(1), TypeTag(4)),
        Ok(vec![TypeTag(1), TypeTag(3), TypeTag(4)])
    );
    // Registering a pair again keeps its place.
    let mut again = numbered_registry(&[(1, 3), (1, 2), (3, 4), (2, 4)]);
    again.register_accessor(TypeTag(1), TypeTag(3), Box::new(|any| any));
    assert_eq!(again.find_path(TypeTag(1), TypeTag(4)), Ok(vec![TypeTag(1), TypeTag(3), TypeTag(4)]));
}

#[test]
fn registering_a_pair_again_replaces_the_accessor() {
    let mut registry: AccessorRegistry<Accessor> = AccessorRegistry::new();
    register(&mut registry, |state: &mut State| &mut state.foo);
    register(&mut registry, |foo: &mut Foo| &mut foo.baz);
    let mut state = State::default();
    let mut other = Foo::default();
    other.baz.y = 5.0;
    state.foo.baz.y = 1.0;
    let baz = registry.access(&mut state as &mut dyn Any, tag::<State>(), tag::<Baz>()).unwrap();
    assert_eq!(baz.downcast_ref::<Baz>().unwrap().y, 1.0);
    assert!(registry.access(&mut other as &mut dyn Any, tag::<Foo>(), tag::<Baz>()).is_ok());
}

#[test]
fn access_fails_as_find_path_does() {
    let registry = state_registry();
    let mut bar = Bar::default();
    let failure = registry.access(&mut bar as &mut dyn Any, tag::<Bar>(), tag::<Baz>()).err();
    assert_eq!(failure, Some(AccessError::NoPath));
    let looping = numbered_registry(&[(1, 2), (2, 1)]);
    let mut unit = ();
    let failure = looping.access(&mut unit as &mut dyn Any, TypeTag(1), TypeTag(3)).err();
    assert_eq!(failure, Some(AccessError::Cycle));
}

#[test]
fn end_frame_stops_at_the_first_callback_that_finds_no_state() {
    let registry = state_registry();
    let mut state = State::default();
    let mut storage: DispatchedCallbackStorage<Handler, ()> = DispatchedCallbackStorage::new();
    storage.dispatch_callback(Callback::from_fn(tag::<Bar>(), handler(|bar: &mut Bar, _| bar.x = 1.0)), ());
    storage.dispatch_callback(Callback::from_fn(tag::<u8>(), handler(|_: &mut u8, _| ())), ());
    storage.dispatch_callback(Callback::from_fn(tag::<Baz>(), handler(|baz: &mut Baz, _| baz.y = 2.0)), ());
    let (_, _token) = storage.create_internal_callback();

    let result = storage.end_frame(&mut state as &mut dyn Any, tag::<State>(), &registry);

    assert_eq!(result, Err(AccessError::NoPath));
    assert_eq!(state.bar.x, 1.0);
    assert_eq!(state.foo.baz.y, 0.0);
    assert!(storage.external.is_empty());
    assert!(storage.internal.is_empty());
    assert_eq!(storage.next_token, 0);
}

#[test]
fn end_frame_runs_callbacks_oldest_first() {
    let registry = state_registry();
    let mut state = State::default();
    let mut storage: DispatchedCallbackStorage<Handler, ()> = DispatchedCallbackStorage::new();
    storage.dispatch_callback(Callback::from_fn(tag::<Bar>(), handler(|bar: &mut Bar, _| bar.x = 1.0)), ());
    storage.dispatch_callback(Callback::from_fn(tag::<Bar>(), handler(|bar: &mut Bar, _| bar.x *= 10.0)), ());
    storage.dispatch_callback(Callback::from_fn(tag::<Bar>(), handler(|bar: &mut Bar, _| bar.x += 1.0)), ());
    assert_eq!(storage.end_frame(&mut state as &mut dyn Any, tag::<State>(), &registry), Ok(()));
    assert_eq!(state.bar.x, 11.0);
}

#[test]
fn end_frame_drops_payloads_and_restarts_the_tokens() {
    let registry = state_registry();
    let mut state = State::default();
    let mut storage: DispatchedCallbackStorage<Handler, ()> = DispatchedCallbackStorage::new();
    let (first, first_token) = storage.create_internal_callback();
    let (_second, second_token) = storage.create_internal_callback();
    assert_eq!(first_token.as_raw() == second_token.as_raw(), false);
    assert_eq!(storage.next_token, 2);
    storage.dispatch_callback(first, ());
    assert_eq!(storage.internal.len(), 1);

    assert_eq!(storage.end_frame(&mut state as &mut dyn Any, tag::<State>(), &registry), Ok(()));

    assert_eq!(storage.poll_callback_result(first_token), None);
    let (_again, again_token) = storage.create_internal_callback();
    assert!(again_token.as_raw() == first_token.as_raw());
}

#[test]
fn a_payload_is_polled_once() {
    let mut storage: DispatchedCallbackStorage<Handler, u32> = DispatchedCallbackStorage::new();
    let (cb, tk) = storage.create_internal_callback();
    let (other_cb, other_tk) = storage.create_internal_callback();
    storage.dispatch_callback(cb, 17);
    assert_eq!(storage.poll_callback_result(other_tk), None);
    assert_eq!(storage.poll_callback_result(tk), Some(17));
    assert_eq!(storage.poll_callback_result(tk), None);
    storage.dispatch_callback(other_cb, 4);
    assert_eq!(storage.poll_callback_result(other_tk), Some(4));
}

#[test]
fn a_later_payload_replaces_the_one_under_the_same_token() {
    let mut storage: DispatchedCallbackStorage<Handler, u32> = DispatchedCallbackStorage::new();
    let (_, tk) = storage.create_internal_callback();
    storage.dispatch_callback(Callback::Internal { token: tk }, 1);
    storage.dispatch_callback(Callback::Internal { token: tk }, 2);
    assert_eq!(storage.poll_callback_result(tk), Some(2));
}

#[test]
fn a_dispatched_callback_keeps_type_function_and_payload() {
    let ext: ExternalCallback<fn(&mut u32, u32)> =
        ExternalCallback { input_type: TypeTag(5), f: |state, payload| *state += payload };
    let dispatched = DispatchedExternalCallback::new(ext, 4u32);
    assert_eq!(dispatched.input_type, TypeTag(5));
    assert_eq!(dispatched.payload, 4);
    let mut state = 10u32;
    dispatched.invoke(&mut state);
    assert_eq!(state, 14);
}

#[test]
fn from_fn_makes_an_external_callback() {
    let callback: Callback<fn(&mut u32, ()), ()> = Callback::from_fn(TypeTag(3), |_, _| ());
    assert!(matches!(callback, Callback::External(ext) if ext.input_type == TypeTag(3)));
}

#[test]
fn invoke_callback_projects_before_it_invokes() {
    let registry = state_registry();
    let mut state = State::default();
    let ext = ExternalCallback { input_type: tag::<Baz>(), f: handler(|baz: &mut Baz, _| baz.y = 8.0) };
    let result =
        registry.invoke_callback(&mut state as &mut dyn Any, tag::<State>(), DispatchedExternalCallback::new(ext, ()));
    assert_eq!(result, Ok(()));
    assert_eq!(state.foo.baz.y, 8.0);
}
