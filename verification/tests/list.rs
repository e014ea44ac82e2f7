use spli::list::List;
use std::sync::Arc;

fn make_123() -> List<i32> {
    List::new().cons(3).cons(2).cons(1)
}

/// The list of the values in the order in which they are written.
fn list<T: Clone>(values: &[T]) -> List<T> {
    let mut result = List::new();
    for value in values.iter().rev() {
        result = result.cons(value.clone());
    }
    result
}

#[test]
fn list_test_new() {
    let list: List<()> = List::new();
    assert_eq!(list.head(), None);
}

#[test]
fn test_default() {
    let list: List<()> = Default::default();
    assert_eq!(list.head(), None);
}

#[test]
fn test_list_macro() {
    assert_eq!(list(&[1, 2, 3]), make_123());
    assert_eq!(list(&[1]), List::new().cons(1));
    assert_eq!(list(&[1, 2, 3,]), make_123());
    assert_eq!(list(&[1,]), List::new().cons(1));
    assert_eq!(list::<()>(&[]), List::<()>::new());
}

#[test]
fn test_head() {
    assert_eq!(make_123().head(), Some(Arc::new(1)));
}

#[test]
fn test_head_empty() {
    assert_eq!(List::<()>::new().head(), None);
}

#[test]
fn test_tail() {
    assert_eq!(make_123().tail(), Some(list(&[2, 3])));
}

#[test]
fn test_tail_empty() {
    assert_eq!(List::<()>::new().tail(), None);
}

#[test]
fn test_pop_node() {
    let mut list = make_123();
    for num in 1..=3 {
        let node = list.pop_node().expect("too few items");
        assert_eq!(node.val, Arc::new(num));
    }
    assert_eq!(list, List::new());
    assert!(list.pop_node().is_none());
}

#[test]
fn test_reverse_from_iter() {
    assert_eq!(List::reverse_from_iter(vec![3, 2, 1]), make_123());
}

#[test]
fn test_from_double_ended_iter() {
    assert_eq!(List::from_double_ended_iter(vec![1, 2, 3]), make_123());
}

#[test]
fn test_eq() {
    assert_eq!(list(&[1, 2, 3, 4]), list(&[1, 2, 3, 4]));
    assert_ne!(list(&[1, 2, 3]), list(&[1, 2, 3, 4]));
    assert_ne!(list(&[1, 2, 3, 5]), list(&[1, 2, 3, 4]));
}

struct A;

fn func(_: &A) {}

#[test]
fn test_into_iter() {
    let mut iter = make_123().into_iter();
    assert_eq!(*iter.next().unwrap(), 1);
    assert_eq!(*iter.next().unwrap(), 2);
    assert_eq!(*iter.next().unwrap(), 3);
    assert_eq!(iter.next(), None);
    func(&List::new().cons(A).into_iter().next().unwrap());
}

#[test]
fn test_iter() {
    let list = make_123();
    let mut iter = list.iter();
    assert_eq!(*iter.next().unwrap(), 1);
    assert_eq!(*iter.next().unwrap(), 2);
    assert_eq!(*iter.next().unwrap(), 3);
    assert_eq!(iter.next(), None);
    assert_eq!(list, make_123());
}

#[test]
fn test_len() {
    let mut list = List::new();
    assert_eq!(list.len(), 0);
    list = list.cons(1);
    assert_eq!(list.len(), 1);
    list = list.cons(2);
    assert_eq!(list.len(), 2);
    list = list.cons(3);
    assert_eq!(list.len(), 3);
    list = list.tail().unwrap();
    assert_eq!(list.len(), 2);
}

#[test]
fn test_clone() {
    let mut first_list = make_123();
    let mut second_list = first_list.clone();
    first_list = first_list.cons(4);
    second_list = second_list.cons(5);
    assert_eq!(first_list, list(&[4, 1, 2, 3]));
    assert_eq!(second_list, list(&[5, 1, 2, 3]));
}

#[test]
fn a_long_list_is_released() {
    let mut list = List::new();
    for i in 0..500_000u32 {
        list = list.cons(i);
    }
    assert_eq!(list.len(), 500_000);
    let tail = list.tail().unwrap().tail().unwrap();
    drop(list);
    assert_eq!(tail.len(), 499_998);
    assert_eq!(tail.head(), Some(Arc::new(499_997)));
    assert_eq!(tail.last(), Some(Arc::new(0)));
    drop(tail);
}

#[test]
fn a_tail_outlives_its_list() {
    let list = make_123();
    let tail = list.tail().unwrap();
    let longer = tail.cons(7);
    drop(list);
    assert_eq!(tail, List::new().cons(3).cons(2));
    assert_eq!(longer, List::new().cons(3).cons(2).cons(7));
    drop(tail);
    assert_eq!(longer.to_vec(), vec![Arc::new(7), Arc::new(2), Arc::new(3)]);
}

#[test]
fn test_pop() {
    let mut list = make_123();
    assert_eq!(list.pop(), Some(Arc::new(1)));
    assert_eq!(list.len(), 2);
    assert_eq!(list.pop(), Some(Arc::new(2)));
    assert_eq!(list.pop(), Some(Arc::new(3)));
    assert_eq!(list.pop(), None);
    assert_eq!(list.len(), 0);
    assert_eq!(list.pop(), None);
}

#[test]
fn head_and_tail_together() {
    let (head, tail) = make_123().head_tail().unwrap();
    assert_eq!(*head, 1);
    assert_eq!(tail, List::new().cons(3).cons(2));
    assert!(List::<u8>::new().head_tail().is_none());
    assert_eq!(make_123().last(), Some(Arc::new(3)));
    assert_eq!(List::<u8>::new().last(), None);
}

#[test]
fn head_of_cons_and_tail_of_cons() {
    for list in [List::new(), List::new().cons(5), make_123()] {
        let longer = list.cons(9);
        assert_eq!(longer.head(), Some(Arc::new(9)));
        assert_eq!(longer.tail(), Some(list.clone()));
        assert_eq!(longer.len(), list.len() + 1);
        assert_eq!(longer.tail().unwrap().len(), longer.len() - 1);
        assert_eq!(list.try_cons_arc(Arc::new(9)), Some(longer));
    }
}

#[test]
fn elements_are_compared_as_far_as_both_lists_go() {
    assert!(make_123().elems_eq(&List::new().cons(2).cons(1)));
    assert!(!make_123().elems_eq(&List::new().cons(1).cons(1)));
    assert!(make_123().elems_eq(&List::new()));
}
