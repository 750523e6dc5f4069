use tex_of_ocaml::list::{append, cons, List};

fn push_back(mut acc: Vec<i32>, x: i32) -> Vec<i32> {
    acc.push(x);
    acc
}

fn subtract(acc: i32, x: i32) -> i32 {
    acc - x
}

fn items(list: List<i32>) -> Vec<i32> {
    list.foldl(push_back, Vec::new())
}

#[test]
fn fold_goes_first_to_last() {
    let list = cons(1, cons(2, cons(3, List::Nil)));
    assert_eq!(vec![1, 2, 3], items(list));
    let list = cons(1, cons(2, cons(3, List::Nil)));
    assert_eq!(4, list.foldl(subtract, 10));
}

#[test]
fn fold_of_nothing_is_the_start() {
    let list: List<i32> = List::Nil;
    assert_eq!(5, list.foldl(subtract, 5));
}

#[test]
fn singleton_holds_one_item() {
    assert_eq!(vec![7], items(List::singleton(7)));
}

#[test]
fn append_keeps_both_orders() {
    let xs = cons(1, cons(2, List::Nil));
    let ys = cons(3, List::singleton(4));
    assert_eq!(vec![1, 2, 3, 4], items(append(xs, ys)));
    assert_eq!(vec![9], items(append(List::Nil, List::singleton(9))));
    assert_eq!(vec![9], items(append(List::singleton(9), List::Nil)));
}

#[test]
fn cons_puts_the_item_first() {
    assert_eq!(vec![0, 1], items(cons(0, List::singleton(1))));
}
