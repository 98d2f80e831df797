use adapton_collections::art::cell;
use adapton_collections::name::{Name, NameOrContent};
use adapton_collections::structures::{tree_of_list, tree_of_list_rec, List, ListT, Tree, TreeT};
use std::rc::Rc;

fn shared(v: &[u64]) -> Rc<List> {
    let mut l = Rc::new(<List as ListT>::nil());
    for x in v.iter().rev() {
        l = Rc::new(<List as ListT>::cons(*x, l));
    }
    l
}

fn in_order(t: &Tree, out: &mut Vec<NameOrContent<u64>>) {
    match t {
        Tree::Nil => {}
        Tree::Leaf(x) => out.push(NameOrContent::Content(*x)),
        Tree::Bin(x, l, r) => {
            in_order(l, out);
            out.push(NameOrContent::Content(*x));
            in_order(r, out);
        }
        Tree::Name(n, l, r) => {
            in_order(l, out);
            out.push(NameOrContent::Name(n.clone()));
            in_order(r, out);
        }
        Tree::Art(a) => in_order(a.force(), out),
    }
}

#[test]
fn shared_list_elim_and_is_empty() {
    let l = shared(&[4, 5]);
    assert!(!l.is_empty());
    let (first, rest) = l.elim().unwrap();
    assert_eq!(first, NameOrContent::Content(4));
    let (second, rest) = rest.elim().unwrap();
    assert_eq!(second, NameOrContent::Content(5));
    assert!(rest.is_empty());
    assert!(rest.elim().is_none());
}

#[test]
fn shared_list_elim_reads_through_articulation() {
    let inner = <List as ListT>::name(Name::symbol(3), shared(&[7]));
    let l = <List as ListT>::art(cell(Name::symbol(1), inner));
    let (first, rest) = l.elim().unwrap();
    assert_eq!(first, NameOrContent::Name(Name::symbol(3)));
    assert_eq!(rest.elim().unwrap().0, NameOrContent::Content(7));
}

#[test]
fn shared_list_fold_sums_elements() {
    let l = <List as ListT>::name(Name::symbol(2), shared(&[1, 2, 3, 4]));
    assert_eq!(l.fold(100, &|acc: u64, x: u64| acc + x), 110);
    assert_eq!(l.fold(0, &|acc: u64, x: u64| acc * 10 + x), 1234);
}

#[test]
fn tree_builders_keep_order() {
    let t = <Tree as TreeT>::bin(
        5,
        Rc::new(<Tree as TreeT>::leaf(1)),
        Rc::new(<Tree as TreeT>::name(Name::symbol(9), Rc::new(<Tree as TreeT>::nil()), Rc::new(<Tree as TreeT>::leaf(8)))),
    );
    let mut out = Vec::new();
    in_order(&t, &mut out);
    assert_eq!(
        out,
        vec![
            NameOrContent::Content(1),
            NameOrContent::Content(5),
            NameOrContent::Name(Name::symbol(9)),
            NameOrContent::Content(8),
        ]
    );
}

#[test]
fn built_tree_holds_items_in_order() {
    let l = <List as ListT>::cons(
        3,
        Rc::new(<List as ListT>::name(Name::symbol(11), shared(&[1, 4, 1, 5, 9, 2, 6]))),
    );
    let t = tree_of_list(&Rc::new(l));
    let mut out = Vec::new();
    in_order(&t, &mut out);
    let mut expect = vec![NameOrContent::Content(3), NameOrContent::Name(Name::symbol(11))];
    for x in [1u64, 4, 1, 5, 9, 2, 6] {
        expect.push(NameOrContent::Content(x));
    }
    assert_eq!(out, expect);
}

#[test]
fn built_tree_of_empty_list_is_nil() {
    let t = tree_of_list(&shared(&[]));
    assert_eq!(*t, Tree::Nil);
}

#[test]
fn rec_keeps_left_tree_at_end() {
    let left = Rc::new(<Tree as TreeT>::leaf(42));
    let (t, rest) = tree_of_list_rec(&shared(&[]), &left, 0, 10);
    assert_eq!(*t, Tree::Leaf(42));
    assert!(rest.is_empty());
}

#[test]
fn rec_stops_below_lower_bound() {
    let left = Rc::new(<Tree as TreeT>::leaf(42));
    let (t, rest) = tree_of_list_rec(&shared(&[7, 8]), &left, 500, 1000);
    assert_eq!(*t, Tree::Leaf(42));
    assert_eq!(rest.elim().unwrap().0, NameOrContent::Content(7));
}
