use rust_from_python::smart_pointers::{list_len, Animal, Cat, ConsList, Dog};
use std::cell::RefCell;
use std::rc::Rc;

#[test]
fn test_box_basics() {
    let b = Box::new(100);
    assert_eq!(*b, 100);
}

#[test]
fn test_rc_sharing() {
    let r1 = Rc::new(String::from("shared"));
    let r2 = Rc::clone(&r1);
    assert_eq!(Rc::strong_count(&r1), 2);
    assert_eq!(*r1, "shared");
    assert_eq!(*r2, "shared");
}

#[test]
fn test_refcell_mutation() {
    let cell = RefCell::new(0);
    *cell.borrow_mut() = 42;
    assert_eq!(*cell.borrow(), 42);
}

#[test]
fn test_rc_refcell() {
    let shared = Rc::new(RefCell::new(String::from("hello")));
    let shared2 = Rc::clone(&shared);
    shared2.borrow_mut().push_str(" world");
    assert_eq!(*shared.borrow(), "hello world");
}

#[test]
fn test_cons_list() {
    let list = ConsList::Cons(10, Box::new(ConsList::Cons(20, Box::new(ConsList::Nil))));
    match &list {
        ConsList::Cons(val, _) => assert_eq!(*val, 10),
        _ => panic!("expected Cons"),
    }
}

#[test]
fn cons_list_length() {
    let list = ConsList::Cons(
        1,
        Box::new(ConsList::Cons(2, Box::new(ConsList::Cons(3, Box::new(ConsList::Nil))))),
    );
    assert_eq!(list_len(&list), 3);
    assert_eq!(list_len(&ConsList::Nil), 0);
}

#[test]
fn animals_speak_through_trait_objects() {
    let animals: Vec<Box<dyn Animal>> = vec![
        Box::new(Dog { name: String::from("旺财") }),
        Box::new(Cat { name: String::from("咪咪") }),
    ];
    assert_eq!(animals[0].name(), "旺财");
    assert_eq!(animals[0].speak(), "汪汪!");
    assert_eq!(animals[1].name(), "咪咪");
    assert_eq!(animals[1].speak(), "喵~");
}
