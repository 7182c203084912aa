use guee::memory::Memory;
use guee::memory::MemoryKey;
use guee::type_tag::TypeTag;
use guee::widget_id::WidgetId;

const TEXT: TypeTag = TypeTag(1);
const OTHER: TypeTag = TypeTag(2);

fn id(key: &str) -> WidgetId {
    WidgetId::new(key)
}

#[test]
fn a_value_that_was_set_is_read() {
    let mut memory: Memory<String> = Memory::new();
    assert!(!memory.contains(id("a"), TEXT));
    memory.set(id("a"), TEXT, "one".to_string());
    assert!(memory.contains(id("a"), TEXT));
    assert_eq!(memory.get(id("a"), TEXT), "one");
    memory.set(id("a"), TEXT, "two".to_string());
    assert_eq!(memory.get(id("a"), TEXT), "two");
}

#[test]
fn the_first_default_stays() {
    let mut memory: Memory<u32> = Memory::new();
    assert_eq!(*memory.get_or(id("a"), TEXT, 5), 5);
    assert_eq!(*memory.get_or(id("a"), TEXT, 9), 5);
    assert_eq!(*memory.get(id("a"), TEXT), 5);
    memory.ensure(id("a"), TEXT, 11);
    assert_eq!(*memory.get(id("a"), TEXT), 5);
    memory.ensure(id("b"), TEXT, 11);
    assert_eq!(*memory.get(id("b"), TEXT), 11);
}

#[test]
fn widgets_and_kinds_are_kept_apart() {
    let mut memory: Memory<u32> = Memory::new();
    memory.set(id("a"), TEXT, 1);
    memory.set(id("a"), OTHER, 2);
    memory.set(id("b"), TEXT, 3);
    assert_eq!(*memory.get(id("a"), TEXT), 1);
    assert_eq!(*memory.get(id("a"), OTHER), 2);
    assert_eq!(*memory.get(id("b"), TEXT), 3);
    assert!(!memory.contains(id("b"), OTHER));
    assert_eq!(Memory::<u32>::key(id("a"), OTHER), MemoryKey { id: id("a"), kind: OTHER });
}

#[test]
fn a_value_is_changed_through_its_handle() {
    let mut memory: Memory<Vec<u8>> = Memory::new();
    memory.set(id("a"), TEXT, vec![1]);
    memory.set(id("b"), TEXT, vec![7]);
    memory.get_mut(id("a"), TEXT).push(2);
    assert_eq!(memory.get(id("a"), TEXT), &vec![1, 2]);
    assert_eq!(memory.get(id("b"), TEXT), &vec![7]);
    memory.get_mut_or(id("c"), TEXT, vec![9]).push(10);
    assert_eq!(memory.get(id("c"), TEXT), &vec![9, 10]);
    memory.get_mut_or(id("c"), TEXT, vec![0]).push(11);
    assert_eq!(memory.get(id("c"), TEXT), &vec![9, 10, 11]);
}

#[test]
fn defaults_of_the_value_type() {
    let mut memory: Memory<u32> = Memory::new();
    assert_eq!(*memory.get_or_default(id("a"), TEXT), 0);
    *memory.get_mut_or_default(id("a"), TEXT) += 4;
    assert_eq!(*memory.get_or_default(id("a"), TEXT), 4);
    memory.ensure_default(id("a"), TEXT);
    assert_eq!(*memory.get(id("a"), TEXT), 4);
    memory.ensure_default(id("b"), TEXT);
    assert_eq!(*memory.get(id("b"), TEXT), 0);
    *memory.get_mut_or_default(id("c"), OTHER) = 8;
    assert_eq!(*memory.get(id("c"), OTHER), 8);
}

#[test]
fn entries_of_widgets_that_are_gone_stay() {
    let mut memory: Memory<u32> = Memory::new();
    for frame in 0..3u32 {
        memory.ensure(id("always"), TEXT, frame);
        if frame == 0 {
            memory.ensure(id("once"), TEXT, 77);
        }
    }
    assert_eq!(*memory.get(id("always"), TEXT), 0);
    assert_eq!(*memory.get(id("once"), TEXT), 77);
}
