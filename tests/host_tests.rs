use vdom::buffer::{create_typed_array, BufferError, SharedMemoryBuffer};
use vdom::component::{ComponentConfig, MyComponent};

#[test]
fn buffer_stores_bumped_bytes() {
    let mut b = SharedMemoryBuffer::new(4);
    assert_eq!(b.process_data(&[1, 2, 255]), Ok(()));
    assert_eq!(b.get_buffer(), vec![2, 3, 0]);
}

#[test]
fn buffer_refuses_too_much_data() {
    let mut b = SharedMemoryBuffer::new(2);
    assert_eq!(b.process_data(&[7]), Ok(()));
    assert_eq!(b.process_data(&[1, 2, 3]), Err(BufferError::ExceedsCapacity));
    assert_eq!(b.get_buffer(), vec![8]);
}

#[test]
fn typed_array_is_zeroed() {
    assert_eq!(create_typed_array(3), vec![0, 0, 0]);
    assert!(create_typed_array(0).is_empty());
}

#[test]
fn component_reverses_messages_once_ready() {
    let mut c = MyComponent::new();
    assert_eq!(c.process_message(vec![1, 2]), Err("Component not initialized".to_string()));
    let config = ComponentConfig { name: "c".to_string(), version: "1".to_string(), features: vec![] };
    assert_eq!(c.initialize(config), Ok(()));
    assert!(c.is_ready());
    assert_eq!(c.process_message(vec![1, 2, 3]), Ok(vec![3, 2, 1]));
    assert_eq!(c.cleanup(), Ok(()));
    assert!(!c.is_ready());
    assert!(c.process_message(vec![1]).is_err());
}
