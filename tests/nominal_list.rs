use adapton_collections::list::{contract, copy, list_hash, merge, mergesort, reduce, singletons, List, Nart};
use adapton_collections::name::{name_fork, Name, NameOrContent};

fn of(v: &[u64]) -> List<u64> {
    let mut l = List::Nil;
    for x in v.iter().rev() {
        l = List::Cons(*x, Box::new(l));
    }
    l
}

fn art(n: u64, l: List<u64>) -> List<u64> {
    List::Art(Nart { loc: Name::symbol(n), content: Box::new(l) })
}

fn elems(l: &List<u64>) -> Vec<u64> {
    let mut out = Vec::new();
    let mut it = l.iter();
    while let Some(x) = it.next() {
        out.push(*x);
    }
    out
}

fn items(l: List<u64>) -> Vec<NameOrContent<u64>> {
    let mut out = Vec::new();
    let mut l = l;
    loop {
        match l.elim() {
            List::Cons(x, tl) => {
                out.push(NameOrContent::Content(x));
                l = *tl;
            }
            List::Name(n, tl) => {
                out.push(NameOrContent::Name(n));
                l = *tl;
            }
            _ => return out,
        }
    }
}

#[test]
pub fn construct_list() {
    let z: List<u64> = List::Nil;
    let y: List<u64> = List::Cons(1, Box::new(z));
    let x: List<u64> = List::Art(Nart { loc: Name::of_str(&format!("two")), content: Box::new(y) });
    let l: List<u64> = List::Name(Name::of_str(&format!("one")), Box::new(x));
    println!("constructed list: {:?}", l);
}

#[test]
fn names_of_strings_are_stable() {
    assert_eq!(Name::of_str("one"), Name::of_str("one"));
    assert_ne!(Name::of_str("one"), Name::of_str("two"));
}

#[test]
fn iter_walks_through_names_and_articulations() {
    let l = List::Cons(1, Box::new(List::Name(Name::symbol(5), Box::new(art(6, of(&[2, 3]))))));
    assert_eq!(elems(&l), vec![1, 2, 3]);
    assert_eq!(elems(&List::<u64>::Nil), Vec::<u64>::new());
}

#[test]
fn copy_renames_names() {
    let n = Name::symbol(9);
    let (_, n2) = name_fork(n.clone());
    let l = List::Cons(1, Box::new(List::Name(n, Box::new(art(3, of(&[2]))))));
    let c = copy(l);
    assert_eq!(items(c), vec![NameOrContent::Content(1), NameOrContent::Name(n2), NameOrContent::Content(2)]);
}

#[test]
fn copy_and_map_store_rest_under_first_fork() {
    let n = Name::symbol(9);
    let (n1, n2) = name_fork(n.clone());
    let c = copy(List::Name(n.clone(), Box::new(of(&[2]))));
    let expect = List::Name(n2.clone(), Box::new(List::Art(Nart { loc: n1.clone(), content: Box::new(of(&[2])) })));
    assert_eq!(c, expect);
    let m = adapton_collections::list::map(&|x: u64| x + 1, List::Name(n, Box::new(of(&[2]))));
    let expect = List::Name(n2, Box::new(List::Art(Nart { loc: n1, content: Box::new(of(&[3])) })));
    assert_eq!(m, expect);
}

#[test]
fn map_applies_to_each_element() {
    let l = List::Name(Name::symbol(1), Box::new(of(&[1, 2, 3])));
    let m = adapton_collections::list::map(&|x: u64| x * 10 + 1, l);
    assert_eq!(elems(&m), vec![11, 21, 31]);
    let (_, n2) = name_fork(Name::symbol(1));
    assert_eq!(items(m)[0], NameOrContent::Name(n2));
}

#[test]
fn contract_combines_chosen_pairs() {
    let l = of(&[1, 2, 3, 4, 5]);
    let c = contract(&|a: &u64, b: &u64| a < b, &|a: u64, b: u64| a + b, l);
    assert_eq!(elems(&c), vec![3, 7, 5]);
    let l = of(&[5, 4, 3]);
    let c = contract(&|a: &u64, b: &u64| a < b, &|a: u64, b: u64| a + b, l);
    assert_eq!(elems(&c), vec![5, 4, 3]);
}

#[test]
fn contract_moves_a_name_between_a_pair() {
    let n = Name::symbol(4);
    let (_, n2) = name_fork(n.clone());
    let l = List::Cons(1, Box::new(List::Name(n, Box::new(of(&[2])))));
    let c = contract(&|_: &u64, _: &u64| true, &|a: u64, b: u64| a + b, l);
    assert_eq!(items(c), vec![NameOrContent::Name(n2), NameOrContent::Content(3)]);
}

#[test]
fn reduce_combines_everything() {
    let l = of(&[1, 2, 3, 4, 5, 6, 7]);
    assert_eq!(reduce(&|a: &u64, b: &u64| a < b, &|a: u64, b: u64| a + b, l), Some(28));
    let l = List::Name(Name::symbol(2), Box::new(art(1, of(&[4]))));
    assert_eq!(reduce(&|_: &u64, _: &u64| true, &|a: u64, b: u64| a + b, l), Some(4));
}

#[test]
fn reduce_of_no_elements_is_none() {
    assert_eq!(reduce(&|_: &u64, _: &u64| true, &|a: u64, b: u64| a + b, List::Nil), None);
    let l = List::Name(Name::symbol(2), Box::new(List::Nil));
    assert_eq!(reduce(&|_: &u64, _: &u64| true, &|a: u64, b: u64| a + b, l), None);
}

#[test]
fn reduce_keeps_element_before_name() {
    let l = List::Cons(10, Box::new(List::Name(Name::symbol(3), Box::new(of(&[5])))));
    assert_eq!(reduce(&|_: &u64, _: &u64| false, &|a: u64, b: u64| a + b, l), Some(15));
}

#[test]
fn merge_by_order() {
    let m = merge(&|a: &u64, b: &u64| a <= b, of(&[1, 4, 9]), art(2, of(&[2, 3, 10])));
    assert_eq!(elems(&m), vec![1, 2, 3, 4, 9, 10]);
    let m = merge(&|a: &u64, b: &u64| a <= b, List::Nil, of(&[7]));
    assert_eq!(elems(&m), vec![7]);
}

#[test]
fn merge_renames_leading_name() {
    let n = Name::symbol(8);
    let (_, n2) = name_fork(n.clone());
    let m = merge(&|a: &u64, b: &u64| a <= b, List::Name(n, Box::new(of(&[2]))), of(&[1]));
    assert_eq!(items(m), vec![NameOrContent::Name(n2), NameOrContent::Content(1), NameOrContent::Content(2)]);
}

#[test]
fn singletons_of_a_list() {
    let s = singletons(None, of(&[4, 5]));
    let mut it = s.iter();
    assert_eq!(elems(it.next().unwrap()), vec![4]);
    assert_eq!(elems(it.next().unwrap()), vec![5]);
    assert!(it.next().is_none());
}

#[test]
fn singletons_after_a_name() {
    let n = Name::symbol(6);
    let (a, rest) = name_fork(n.clone());
    let (_, pending) = name_fork(rest);
    let s = singletons(None, List::Name(n, Box::new(of(&[4]))));
    match s.elim() {
        List::Name(m, tl) => {
            assert_eq!(m, a);
            match tl.elim() {
                List::Cons(one, _) => assert_eq!(one, List::Name(pending, Box::new(of(&[4])))),
                _ => panic!("no element"),
            }
        }
        _ => panic!("no name"),
    }
}

#[test]
fn mergesort_sorts() {
    let v = [9u64, 4, 7, 1, 8, 2, 2, 6, 3, 5, 0];
    let s = mergesort(&|a: &u64, b: &u64| a <= b, of(&v));
    let mut expect = v.to_vec();
    expect.sort();
    assert_eq!(elems(&s), expect);
    assert_eq!(elems(&mergesort(&|a: &u64, b: &u64| a <= b, List::Nil)), Vec::<u64>::new());
    let s = mergesort(&|a: &u64, b: &u64| a >= b, of(&[1, 3, 2]));
    assert_eq!(elems(&s), vec![3, 2, 1]);
}

#[test]
fn list_hash_depends_on_items() {
    assert_eq!(list_hash(&of(&[1, 2])), list_hash(&art(5, of(&[1, 2]))));
    assert_ne!(list_hash(&of(&[1, 2])), list_hash(&of(&[2, 1])));
}

#[test]
fn merge_with_empty_second_keeps_first_as_given() {
    let m = merge(&|a: &u64, b: &u64| a <= b, art(3, of(&[1])), List::Nil);
    assert_eq!(m, art(3, of(&[1])));
}

#[test]
fn merge_renames_name_before_forcing_second() {
    let n = Name::symbol(5);
    let (n1, n2) = name_fork(n.clone());
    let m = merge(&|a: &u64, b: &u64| a <= b, List::Name(n, Box::new(of(&[2]))), art(4, List::Nil));
    let expect = List::Name(n2, Box::new(List::Art(Nart { loc: n1, content: Box::new(of(&[2])) })));
    assert_eq!(m, expect);
}
