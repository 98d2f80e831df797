use adapton_collections::art::cell;
use adapton_collections::collection::{Dir2, List, Tree};
use adapton_collections::collection_algo::{
    list_merge, list_merge_sort, list_of_tree, list_of_vec, list_reduce_monoid, rev_list_of_tree,
    rev_list_of_vec, tree_append, tree_filter, tree_of_list, tree_of_list_rec, tree_reduce_monoid,
};
use adapton_collections::name::{lev, lev_name, name_fork, name_fork4, Name, NameOrContent, LEV_BITS, LEV_MAX};
use std::rc::Rc;

fn items_of(l: List) -> Vec<NameOrContent<u64>> {
    let mut out = Vec::new();
    let mut l = l;
    loop {
        match l.elim() {
            List::Cons(x, tl) => {
                out.push(NameOrContent::Content(x));
                l = *tl;
            }
            List::Name(n, tl) => {
                out.push(NameOrContent::Name(n));
                l = *tl;
            }
            _ => return out,
        }
    }
}

fn elems(v: &[NameOrContent<u64>]) -> Vec<u64> {
    v.iter()
        .filter_map(|i| match i {
            NameOrContent::Content(x) => Some(*x),
            NameOrContent::Name(_) => None,
        })
        .collect()
}

fn open(t: &Tree) -> &Tree {
    match t {
        Tree::Rc(rc) => open(rc),
        Tree::Art(a) => open(a.force()),
        _ => t,
    }
}

fn node_lev(t: &Tree) -> u32 {
    match open(t) {
        Tree::Bin(v, _, _) => *v,
        Tree::Name(_, v, _, _) => *v,
        _ => 0,
    }
}

fn levels_hold(t: &Tree) -> bool {
    match open(t) {
        Tree::Bin(v, l, r) => {
            node_lev(l) <= *v && node_lev(r) <= *v && *v <= LEV_BITS + 1 && levels_hold(l) && levels_hold(r)
        }
        Tree::Name(n, v, l, r) => {
            node_lev(l) <= *v
                && node_lev(r) <= *v
                && *v == lev_name(n)
                && levels_hold(l)
                && levels_hold(r)
        }
        _ => true,
    }
}

fn count_nodes(t: &Tree) -> usize {
    match open(t) {
        Tree::Bin(_, l, r) | Tree::Name(_, _, l, r) => 1 + count_nodes(l) + count_nodes(r),
        _ => 1,
    }
}

fn subtrees<'a>(t: &'a Tree, out: &mut Vec<&'a Tree>) {
    let t = open(t);
    out.push(t);
    match t {
        Tree::Bin(_, l, r) | Tree::Name(_, _, l, r) => {
            subtrees(l, out);
            subtrees(r, out);
        }
        _ => {}
    }
}

fn nominal_input() -> List {
    // 1, name 10, 2, then a shared node over 3 and an articulation over
    // 4, name 11, 5, an embedded tree of 6 and 7, and 8
    let embedded = Tree::bin(1, Tree::leaf(6), Tree::leaf(7));
    let after_eleven = List::cons(5, List::tree(embedded, Dir2::Left, List::cons(8, List::nil())));
    let articulated = List::art(cell(Name::symbol(20), List::cons(4, List::name(Name::symbol(11), after_eleven))));
    let shared = List::rc(Rc::new(List::cons(3, articulated)));
    List::cons(1, List::name(Name::symbol(10), List::cons(2, shared)))
}

fn nominal_items() -> Vec<NameOrContent<u64>> {
    vec![
        NameOrContent::Content(1),
        NameOrContent::Name(Name::symbol(10)),
        NameOrContent::Content(2),
        NameOrContent::Content(3),
        NameOrContent::Content(4),
        NameOrContent::Name(Name::symbol(11)),
        NameOrContent::Content(5),
        NameOrContent::Content(6),
        NameOrContent::Content(7),
        NameOrContent::Content(8),
    ]
}

#[test]
fn s1_three_elements_in_order_and_sorted() {
    let t = tree_of_list(Dir2::Left, list_of_vec(vec![3, 1, 2]));
    assert!(levels_hold(&t));
    assert_eq!(list_of_tree(t).to_vec(), vec![3, 1, 2]);
    let sorted = list_merge_sort(list_of_vec(vec![3, 1, 2]));
    assert_eq!(sorted.to_vec(), vec![1, 2, 3]);
}

#[test]
fn s1_root_level_is_highest_element_level() {
    let t = tree_of_list(Dir2::Left, list_of_vec(vec![3, 1, 2]));
    let top = [3u64, 1, 2].iter().map(|x| lev(*x) + 1).max().unwrap();
    assert_eq!(node_lev(&t), top);
}

#[test]
fn s2_single_name_over_two_elements() {
    let a = Name::symbol(7);
    let list = List::name(a.clone(), list_of_vec(vec![5, 6]));
    let t = tree_of_list(Dir2::Left, list);
    let outer = match &t {
        Tree::Art(x) => x,
        _ => panic!("root is not an articulation"),
    };
    let (_, _, n3, n4) = name_fork4(a.clone());
    assert_eq!(outer.loc, n4);
    let inner = match outer.force() {
        Tree::Art(x) => x,
        _ => panic!("no articulation around the name node"),
    };
    assert_eq!(inner.loc, n3);
    match inner.force() {
        Tree::Name(n, v, l, r) => {
            assert_eq!(*n, a);
            assert_eq!(*v, lev_name(&a));
            assert_eq!(**l, Tree::Nil);
            assert_eq!(list_of_tree((**r).clone()).to_vec(), vec![5, 6]);
        }
        _ => panic!("no name node"),
    }
}

#[test]
fn s3_reduce_sum_of_one_to_eight() {
    let t = tree_of_list(Dir2::Left, list_of_vec((1..=8).collect()));
    assert_eq!(tree_reduce_monoid(t, 0, &|a: u64, b: u64| a + b), 36);
    let l = list_of_vec((1..=8).collect());
    assert_eq!(list_reduce_monoid(l, 0, &|a: u64, b: u64| a + b), 36);
}

#[test]
fn s4_filter_even() {
    let t = tree_of_list(Dir2::Left, list_of_vec((1..=8).collect()));
    let f = tree_filter(t, &|x: u64| x % 2 == 0);
    assert_eq!(list_of_tree(f).to_vec(), vec![2, 4, 6, 8]);
}

#[test]
fn s5_merge_two_sorted_lists() {
    let m = list_merge(None, list_of_vec(vec![1, 3, 5]), None, list_of_vec(vec![2, 4, 6]));
    assert_eq!(m.to_vec(), vec![1, 2, 3, 4, 5, 6]);
}

#[test]
fn s6_one_edit_changes_few_nodes() {
    let n: u64 = 256;
    let before: Vec<u64> = (0..n).map(|i| i * 7 + 1).collect();
    let mut after = before.clone();
    after[100] = 100_000;
    let t1 = tree_of_list(Dir2::Left, list_of_vec(before));
    let t2 = tree_of_list(Dir2::Left, list_of_vec(after));
    let mut old_subtrees = Vec::new();
    subtrees(&t1, &mut old_subtrees);
    let mut new_subtrees = Vec::new();
    subtrees(&t2, &mut new_subtrees);
    let unshared = new_subtrees.iter().filter(|s| !old_subtrees.iter().any(|o| o == *s)).count();
    assert!(count_nodes(&t2) > 400);
    assert!(unshared < 64, "unshared nodes: {}", unshared);
}

#[test]
fn round_trip_keeps_items_and_names() {
    let t = tree_of_list(Dir2::Left, nominal_input());
    assert_eq!(items_of(list_of_tree(t)), nominal_items());
}

#[test]
fn in_order_leaves_are_the_elements() {
    let t = tree_of_list(Dir2::Left, nominal_input());
    assert_eq!(list_of_tree(t).to_vec(), vec![1, 2, 3, 4, 5, 6, 7, 8]);
}

#[test]
fn level_invariants_hold_on_built_trees() {
    let t = tree_of_list(Dir2::Left, nominal_input());
    assert!(levels_hold(&t));
    let t = tree_of_list(Dir2::Left, list_of_vec((0..200).collect()));
    assert!(levels_hold(&t));
}

#[test]
fn two_builds_are_equal() {
    let t1 = tree_of_list(Dir2::Left, list_of_vec((0..50).collect()));
    let t2 = tree_of_list(Dir2::Left, list_of_vec((0..50).collect()));
    assert_eq!(t1, t2);
}

#[test]
fn wrappers_do_not_change_the_tree() {
    let plain = List::cons(1, List::name(Name::symbol(10), list_of_vec(vec![2, 3, 4, 5, 6, 7, 8])));
    let t1 = tree_of_list(Dir2::Left, nominal_input());
    let t2 = tree_of_list(Dir2::Left, List::rc(Rc::new(List::art(cell(Name::symbol(3), nominal_input())))));
    assert_eq!(t1, t2);
    let with_eleven = List::cons(
        1,
        List::name(
            Name::symbol(10),
            List::cons(2, List::cons(3, List::cons(4, List::name(Name::symbol(11), list_of_vec(vec![5, 6, 7, 8]))))),
        ),
    );
    assert_eq!(tree_of_list(Dir2::Left, with_eleven), t1);
    assert_ne!(tree_of_list(Dir2::Left, plain), t1);
}

#[test]
fn reduce_is_left_fold() {
    let v: Vec<u64> = vec![9, 2, 7, 4, 4, 11, 3];
    let t = tree_of_list(Dir2::Left, list_of_vec(v.clone()));
    assert_eq!(tree_reduce_monoid(t, 0, &|a: u64, b: u64| a.max(b)), 11);
    let t = tree_of_list(Dir2::Left, list_of_vec(v.clone()));
    assert_eq!(tree_reduce_monoid(t, 1, &|a: u64, b: u64| a * b), v.iter().product::<u64>());
    assert_eq!(tree_reduce_monoid(Tree::nil(), 5, &|a: u64, b: u64| a + b), 5);
}

#[test]
fn sort_is_sorted_permutation() {
    let v: Vec<u64> = vec![5, 3, 9, 3, 1, 8, 2, 7, 7, 0, 4];
    let s = list_merge_sort(list_of_vec(v.clone()));
    let mut expect = v.clone();
    expect.sort();
    assert_eq!(s.to_vec(), expect);
    let s = list_merge_sort(nominal_input());
    assert_eq!(s.to_vec(), vec![1, 2, 3, 4, 5, 6, 7, 8]);
    assert_eq!(list_merge_sort(List::nil()).to_vec(), Vec::<u64>::new());
}

#[test]
fn merge_takes_named_side_and_emits_fork() {
    let n = Name::symbol(1);
    let (_, nb) = name_fork(n.clone());
    let m = list_merge(Some(n), list_of_vec(vec![1, 4]), None, list_of_vec(vec![2, 4]));
    let items = items_of(m);
    assert_eq!(items[0], NameOrContent::Name(nb));
    assert_eq!(elems(&items), vec![1, 2, 4, 4]);
    let m = list_merge(None, List::nil(), Some(Name::symbol(2)), list_of_vec(vec![3]));
    assert_eq!(items_of(m), vec![NameOrContent::Content(3)]);
}

#[test]
fn filter_twice_is_filter_by_both() {
    let t1 = tree_of_list(Dir2::Left, list_of_vec((1..=30).collect()));
    let t2 = t1.clone();
    let a = tree_filter(tree_filter(t1, &|x: u64| x % 2 == 0), &|x: u64| x % 3 == 0);
    let b = tree_filter(t2, &|x: u64| x % 2 == 0 && x % 3 == 0);
    assert_eq!(a, b);
    assert_eq!(list_of_tree(a).to_vec(), vec![6, 12, 18, 24, 30]);
}

#[test]
fn right_built_tree_streams_right() {
    let t = tree_of_list(Dir2::Right, list_of_vec(vec![4, 8, 15, 16, 23, 42]));
    assert_eq!(rev_list_of_tree(t.clone()).to_vec(), vec![4, 8, 15, 16, 23, 42]);
    assert_eq!(list_of_tree(t).to_vec(), vec![42, 23, 16, 15, 8, 4]);
}

#[test]
fn vectors_to_lists() {
    assert_eq!(list_of_vec(vec![1, 2, 3]).to_vec(), vec![1, 2, 3]);
    assert_eq!(rev_list_of_vec(vec![1, 2, 3]).to_vec(), vec![3, 2, 1]);
    assert_eq!(list_of_vec(vec![]).to_vec(), Vec::<u64>::new());
}

#[test]
fn append_puts_first_tree_first() {
    let t1 = tree_of_list(Dir2::Left, list_of_vec(vec![1, 2, 3]));
    let t2 = tree_of_list(Dir2::Left, List::name(Name::symbol(4), list_of_vec(vec![5, 6])));
    let t = tree_append(t1, t2);
    assert!(levels_hold(&t));
    let whole = List::cons(1, List::cons(2, List::cons(3, List::name(Name::symbol(4), list_of_vec(vec![5, 6])))));
    assert_eq!(t, tree_of_list(Dir2::Left, whole));
    assert_eq!(list_of_tree(t).to_vec(), vec![1, 2, 3, 5, 6]);
    let t = tree_append(Tree::nil(), Tree::leaf(9));
    assert_eq!(list_of_tree(t).to_vec(), vec![9]);
}

#[test]
fn embedded_tree_streams_in_its_direction() {
    let tr = Tree::bin(3, Tree::leaf(1), Tree::name(Name::symbol(4), 40, Tree::leaf(2), Tree::leaf(3)));
    let l = List::tree(tr.clone(), Dir2::Left, List::cons(9, List::nil()));
    assert_eq!(
        items_of(l),
        vec![
            NameOrContent::Content(1),
            NameOrContent::Content(2),
            NameOrContent::Name(Name::symbol(4)),
            NameOrContent::Content(3),
            NameOrContent::Content(9),
        ]
    );
    let l = List::tree(tr, Dir2::Right, List::nil());
    assert_eq!(List::tree(Tree::nil(), Dir2::Left, l).to_vec(), vec![3, 2, 1]);
}

#[test]
fn next_leaf_gives_first_leaf() {
    let tr = Tree::bin(3, Tree::leaf(1), Tree::leaf(2));
    let (x, rest) = List::next_leaf(tr.clone(), Dir2::Left);
    assert_eq!(x, Some(1));
    assert_eq!(rest.to_vec(), vec![2]);
    let (x, rest) = List::next_leaf(tr, Dir2::Right);
    assert_eq!(x, Some(2));
    assert_eq!(rest.to_vec(), vec![1]);
    let (x, rest) = List::next_leaf(Tree::nil(), Dir2::Left);
    assert_eq!(x, None);
    assert_eq!(rest, List::Nil);
}

#[test]
fn build_stops_at_higher_level() {
    let l = list_of_vec(vec![10, 20, 30]);
    let (t, rest) = tree_of_list_rec(Dir2::Left, l, Tree::nil(), 0, 0);
    assert_eq!(t, Tree::Nil);
    assert_eq!(rest.to_vec(), vec![10, 20, 30]);
    let (t, rest) = tree_of_list_rec(Dir2::Left, List::name(Name::symbol(1), List::nil()), Tree::nil(), 0, LEV_BITS);
    assert_eq!(t, Tree::Nil);
    assert_eq!(items_of(rest), vec![NameOrContent::Name(Name::symbol(1))]);
}

#[test]
fn levels_and_forks() {
    for x in 0..100u64 {
        assert!(lev(x) <= LEV_BITS);
        let n = Name::symbol(x);
        assert!(lev_name(&n) >= LEV_BITS + 1);
        let (a, b) = name_fork(n.clone());
        assert_ne!(a, b);
        assert_ne!(a, n);
        let (c, d, e, f) = name_fork4(n.clone());
        assert_eq!(name_fork4(n), (c.clone(), d.clone(), e.clone(), f.clone()));
        assert!(c != d && c != e && c != f && d != e && d != f && e != f);
    }
    assert_eq!(Tree::lev_of_tree(&Tree::leaf(5)), lev(5));
}

#[test]
fn tree_text_dump() {
    let t = Tree::bin(3, Tree::leaf(1), Tree::name(Name::symbol(4), 40, Tree::nil(), Tree::leaf(12)));
    assert_eq!(Tree::get_string(t), "Bin(3,Leaf(1),Name(Sym(4),40,Nil,Leaf(12)))");
    let t = Tree::art(cell(Name::symbol(1), Tree::leaf(1234567890)));
    assert_eq!(Tree::get_string(t), "Art(Leaf(1234567890))");
    let t = Tree::rc(Rc::new(Tree::leaf(0)));
    assert_eq!(Tree::get_string(t), "Leaf(0)");
}

#[test]
fn list_text_dump() {
    let n = Name::Fork(Box::new(Name::Sym(2)), true);
    assert_eq!(format!("{:?}", n), "Fork(Sym(2), true)");
    let l = List::cons(1, List::name(n, List::tree(Tree::leaf(3), Dir2::Right, List::nil())));
    assert_eq!(List::get_string(l), "Cons(1,Name(Fork(Sym(2), true),Tree(Leaf(3),Right,Nil)))");
    let l = List::art(cell(Name::symbol(5), List::cons(70, List::nil())));
    assert_eq!(List::get_string(l), "Art(Cons(70,Nil))");
}

#[test]
fn leaf_level_can_exceed_enclosing_bin() {
    let (a, b) = (0..1000u64)
        .flat_map(|a| (0..1000u64).map(move |b| (a, b)))
        .find(|(a, b)| lev(*a) >= lev(*b) + 2)
        .unwrap();
    let t = tree_of_list(Dir2::Left, list_of_vec(vec![a, b]));
    match t {
        Tree::Bin(top, l, r) => {
            assert_eq!(top, lev(a) + 1);
            assert_eq!(*l, Tree::Nil);
            match *r {
                Tree::Bin(v, x, y) => {
                    assert_eq!(v, lev(b) + 1);
                    assert_eq!(*x, Tree::Leaf(a));
                    assert_eq!(*y, Tree::Leaf(b));
                    assert!(lev(a) > v);
                }
                _ => panic!("no inner node"),
            }
        }
        _ => panic!("no root node"),
    }
}

#[test]
fn tree_elim_keeps_embedded_tree() {
    let l = List::tree(Tree::leaf(5), Dir2::Left, List::cons(6, List::nil()));
    match l.tree_elim() {
        List::Tree(t, d, tl) => {
            assert_eq!(*t, Tree::Leaf(5));
            assert_eq!(d, Dir2::Left);
            assert_eq!(tl.to_vec(), vec![6]);
        }
        _ => panic!("embedded tree not exposed"),
    }
    let l = List::rc(Rc::new(List::art(cell(
        Name::symbol(1),
        List::tree(Tree::leaf(5), Dir2::Left, List::cons(6, List::nil())),
    ))));
    match l.tree_elim() {
        List::Cons(x, tl) => {
            assert_eq!(x, 5);
            assert_eq!(tl.to_vec(), vec![6]);
        }
        _ => panic!("tree under a shared node not streamed"),
    }
    let l = List::tree(Tree::nil(), Dir2::Left, List::name(Name::symbol(2), List::nil()));
    match l.elim() {
        List::Name(n, _) => assert_eq!(n, Name::symbol(2)),
        _ => panic!("name not exposed"),
    }
}

#[test]
fn next_leaf_through_name_node() {
    let nm = Name::symbol(3);
    let tr = Tree::name(nm.clone(), 40, Tree::leaf(1), Tree::leaf(2));
    let (x, rest) = List::next_leaf_rec(tr, Dir2::Left, List::cons(9, List::nil()));
    assert_eq!(x, Some(1));
    assert_eq!(rest, List::name(nm.clone(), List::tree(Tree::leaf(2), Dir2::Left, List::cons(9, List::nil()))));
    let tr = Tree::name(nm.clone(), 40, Tree::leaf(1), Tree::leaf(2));
    let (x, rest) = List::next_leaf_rec(tr, Dir2::Right, List::nil());
    assert_eq!(x, Some(2));
    assert_eq!(rest, List::name(nm, List::tree(Tree::leaf(1), Dir2::Right, List::nil())));
    let (x, rest) = List::next_leaf_rec(Tree::leaf(7), Dir2::Left, List::nil());
    assert_eq!((x, rest), (Some(7), List::Nil));
}

#[test]
fn plain_lists_stay_plain() {
    assert_eq!(list_of_vec(vec![1, 2, 3]), List::cons(1, List::cons(2, List::cons(3, List::nil()))));
    assert_eq!(rev_list_of_vec(vec![1, 2]), List::cons(2, List::cons(1, List::nil())));
    let m = list_merge(None, list_of_vec(vec![1, 3, 5]), None, list_of_vec(vec![2, 4, 6]));
    assert_eq!(m, list_of_vec(vec![1, 2, 3, 4, 5, 6]));
    let t = tree_of_list(Dir2::Left, List::name(Name::symbol(8), list_of_vec(vec![4, 5])));
    assert_eq!(list_of_tree(t), List::name(Name::symbol(8), list_of_vec(vec![4, 5])));
}

#[test]
fn merge_stores_rest_under_first_fork() {
    let n = Name::symbol(1);
    let (na, nb) = name_fork(n.clone());
    let m = list_merge(Some(n), list_of_vec(vec![1]), None, list_of_vec(vec![2]));
    let expect = List::name(nb, List::cons(1, List::art(cell(na, list_of_vec(vec![2])))));
    assert_eq!(m, expect);
}

#[test]
fn build_consuming_nothing_opens_the_list() {
    let l = List::rc(Rc::new(List::art(cell(Name::symbol(4), list_of_vec(vec![10, 20])))));
    let (t, rest) = tree_of_list_rec(Dir2::Left, l, Tree::leaf(1), 0, 0);
    assert_eq!(t, Tree::Leaf(1));
    assert_eq!(rest, list_of_vec(vec![10, 20]));
}
