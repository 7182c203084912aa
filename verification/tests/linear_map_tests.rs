use guee::input::MouseButton;
use guee::linear_map::Key;
use guee::linear_map::LinearMap;
use guee::type_tag::TypeTag;

fn tags(map: &LinearMap<TypeTag, &'static str>) -> Vec<(u64, &'static str)> {
    (0..map.len()).map(|i| (map.key_at(i).0, *map.value_at(i))).collect()
}

#[test]
fn a_new_map_is_empty() {
    let map: LinearMap<TypeTag, u8> = LinearMap::new();
    assert_eq!(map.len(), 0);
    assert_eq!(map.get(&TypeTag(1)), None);
    assert!(!map.contains_key(&TypeTag(1)));
    assert_eq!(map.find(&TypeTag(1)), None);
}

#[test]
fn entries_stay_in_the_order_of_their_first_insertion() {
    let mut map = LinearMap::new();
    map.insert(TypeTag(3), "three");
    map.insert(TypeTag(1), "one");
    map.insert(TypeTag(2), "two");
    map.insert(TypeTag(1), "uno");
    assert_eq!(tags(&map), vec![(3, "three"), (1, "uno"), (2, "two")]);
    assert_eq!(map.get(&TypeTag(1)), Some(&"uno"));
    assert_eq!(map.find(&TypeTag(2)), Some(2));
    assert!(map.contains_key(&TypeTag(3)));
    assert!(!map.contains_key(&TypeTag(4)));
}

#[test]
fn removing_gives_the_value_back() {
    let mut map = LinearMap::new();
    map.insert(TypeTag(3), "three");
    map.insert(TypeTag(1), "one");
    map.insert(TypeTag(2), "two");
    assert_eq!(map.remove(&TypeTag(1)), Some("one"));
    assert_eq!(map.remove(&TypeTag(1)), None);
    assert_eq!(tags(&map), vec![(3, "three"), (2, "two")]);
    assert_eq!(map.remove(&TypeTag(9)), None);
    map.clear();
    assert_eq!(map.len(), 0);
    assert_eq!(map.get(&TypeTag(3)), None);
}

#[test]
fn values_are_changed_in_place() {
    let mut map = LinearMap::new();
    map.insert(MouseButton::Primary, 1u32);
    map.insert(MouseButton::Other(3), 2u32);
    *map.get_mut(&MouseButton::Other(3)) += 40;
    map.set_value_at(0, 7);
    assert_eq!(map.get(&MouseButton::Primary), Some(&7));
    assert_eq!(map.get(&MouseButton::Other(3)), Some(&42));
    assert_eq!(map.get(&MouseButton::Other(4)), None);
    assert_eq!(map.key_at(1), MouseButton::Other(3));
}

#[test]
fn keys_compare_by_value() {
    assert!(MouseButton::Other(1).same(&MouseButton::Other(1)));
    assert!(!MouseButton::Other(1).same(&MouseButton::Other(2)));
    assert!(!MouseButton::Primary.same(&MouseButton::Secondary));
    assert!(TypeTag(5).same(&TypeTag(5)));
}
