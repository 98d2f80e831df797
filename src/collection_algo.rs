//! Algorithms over nominal lists and trees: level-guided tree building,
//! reduction, filtering, conversions, merging and sorting.
use vstd::prelude::*;
use vstd::multiset::Multiset;
use crate::art::{cell, spec_cell};
use crate::collection::{
    Dir2, List, Tree, tree_items, contents, open_tree, tree_inner, spec_elim, is_plain, is_flat, tree_size, lemma_contents_append,
    lemma_contents_single,
};
use crate::name::{
    Name, NameOrContent, LEV_BITS, LEV_MAX, spec_lev, spec_lev_name, spec_fork, spec_fork4, lev, lev_name, name_fork, name_fork4,
    lemma_lev_bounds,
};

verus! {

/// `acc` and `child` under a `Bin` node: `acc` first in direction `dir`.
pub open spec fn spec_join(dir: Dir2, lev: u32, acc: Tree, child: Tree) -> Tree {
    match dir {
        Dir2::Left => Tree::Bin(lev, Box::new(acc), Box::new(child)),
        Dir2::Right => Tree::Bin(lev, Box::new(child), Box::new(acc)),
    }
}

/// `acc` and `child` under a `Name` node: `acc` first in direction `dir`.
pub open spec fn spec_join_name(dir: Dir2, n: Name, lev: u32, acc: Tree, child: Tree) -> Tree {
    match dir {
        Dir2::Left => Tree::Name(n, lev, Box::new(acc), Box::new(child)),
        Dir2::Right => Tree::Name(n, lev, Box::new(child), Box::new(acc)),
    }
}

/// The level at which an item enters a tree: one above the element's
/// level, or the name's level (which is above every element's).
pub open spec fn item_lev(i: NameOrContent<u64>) -> int {
    match i {
        NameOrContent::Content(x) => spec_lev(x) + 1,
        NameOrContent::Name(n) => spec_lev_name(n) as int,
    }
}

/// Extends `acc`, whose level is `acc_lev`, with the longest prefix of `s`
/// whose items enter at a level between `acc_lev` and `parent_lev`; gives
/// the extended tree and the items left over.
pub open spec fn spec_tree_of_list_rec(
    dir: Dir2,
    s: Seq<NameOrContent<u64>>,
    acc: Tree,
    acc_lev: u32,
    parent_lev: u32,
) -> (Tree, Seq<NameOrContent<u64>>)
    decreases s.len(),
{
    if s.len() == 0 {
        (acc, s)
    } else {
        let l = item_lev(s[0]);
        if !(acc_lev <= l && l <= parent_lev) {
            (acc, s)
        } else {
            match s[0] {
                NameOrContent::Content(x) => {
                    let inner = spec_tree_of_list_rec(dir, s.skip(1), Tree::Leaf(x), 0, l as u32);
                    let joined = spec_join(dir, l as u32, acc, inner.0);
                    if inner.1.len() < s.len() {
                        spec_tree_of_list_rec(dir, inner.1, joined, l as u32, parent_lev)
                    } else {
                        (joined, inner.1)
                    }
                },
                NameOrContent::Name(n) => {
                    let names = spec_fork4(n);
                    let inner = spec_tree_of_list_rec(dir, s.skip(1), Tree::Nil, 0, l as u32);
                    let joined = Tree::Art(
                        spec_cell(names.2, spec_join_name(dir, n, l as u32, acc, inner.0)),
                    );
                    if inner.1.len() < s.len() {
                        let outer = spec_tree_of_list_rec(dir, inner.1, joined, l as u32, parent_lev);
                        (Tree::Art(spec_cell(names.3, outer.0)), outer.1)
                    } else {
                        (joined, inner.1)
                    }
                },
            }
        }
    }
}

/// The tree built from the items `s` in direction `dir`.
pub open spec fn spec_tree_of_list(dir: Dir2, s: Seq<NameOrContent<u64>>) -> Tree {
    spec_tree_of_list_rec(dir, s, Tree::Nil, 0, LEV_MAX).0
}

/// Extends `tree` (of level `tree_lev`) with the prefix of `list` whose
/// items enter at a level between `tree_lev` and `parent_lev`. A name in
/// range becomes a `Name` node over the items that follow it, stored in an
/// articulation under its third fork; the tree finished after it is stored
/// under its fourth.
pub fn tree_of_list_rec(dir: Dir2, list: List, tree: Tree, tree_lev: u32, parent_lev: u32) -> (r: (
    Tree,
    List,
))
    ensures
        (r.0, r.1@) == spec_tree_of_list_rec(dir, list@, tree, tree_lev, parent_lev),
        r.1@.len() <= list@.len(),
        list@.len() == 0 || !(tree_lev <= item_lev(list@[0]) <= parent_lev) ==> r.0 == tree && r.1
            == spec_elim(list),
    decreases list@.len(),
{
    let ghost s = list@;
    let list = list.elim();
    match list {
        List::Nil => (tree, List::Nil),
        List::Cons(hd, rest) => {
            assert(s.skip(1) =~= rest@);
            let lev_hd = lev(hd) + 1;
            if tree_lev <= lev_hd && lev_hd <= parent_lev {
                let leaf = Tree::Leaf(hd);
                let (tree2, rest2) = tree_of_list_rec(dir, *rest, leaf, 0, lev_hd);
                let tree3 = match dir {
                    Dir2::Left => Tree::Bin(lev_hd, Box::new(tree), Box::new(tree2)),
                    Dir2::Right => Tree::Bin(lev_hd, Box::new(tree2), Box::new(tree)),
                };
                tree_of_list_rec(dir, rest2, tree3, lev_hd, parent_lev)
            } else {
                (tree, List::Cons(hd, rest))
            }
        },
        List::Name(nm, rest) => {
            assert(s.skip(1) =~= rest@);
            let lev_nm = lev_name(&nm);
            if tree_lev <= lev_nm && lev_nm <= parent_lev {
                let (_nm1, _nm2, nm3, nm4) = name_fork4(nm.duplicate());
                let (tree2, rest2) = tree_of_list_rec(dir, *rest, Tree::Nil, 0, lev_nm);
                let tree3 = match dir {
                    Dir2::Left => Tree::Name(nm, lev_nm, Box::new(tree), Box::new(tree2)),
                    Dir2::Right => Tree::Name(nm, lev_nm, Box::new(tree2), Box::new(tree)),
                };
                let tree3 = Tree::Art(cell(nm3, tree3));
                let (tree4, rest3) = tree_of_list_rec(dir, rest2, tree3, lev_nm, parent_lev);
                (Tree::Art(cell(nm4, tree4)), rest3)
            } else {
                (tree, List::Name(nm, rest))
            }
        },
        _ => {
            proof {
                assert(false);
            }
            (tree, list)
        },
    }
}

/// Builds the tree of a list in direction `dir`: the whole list is consumed.
pub fn tree_of_list(dir: Dir2, list: List) -> (r: Tree)
    ensures
        r == spec_tree_of_list(dir, list@),
        tree_items(r, dir) == list@,
        levels_ok(r),
{
    proof {
        lemma_tree_of_list_items(dir, list@);
        lemma_tree_of_list_levels(dir, list@);
    }
    let (tree, _rest) = tree_of_list_rec(dir, list, Tree::Nil, 0, LEV_MAX);
    tree
}

/// What one call of the building recursion keeps: the items of the
/// extended tree, then the items left over, are the items of the tree it
/// started from, then the items it was given.
pub proof fn lemma_tree_of_list_rec_items(
    dir: Dir2,
    s: Seq<NameOrContent<u64>>,
    acc: Tree,
    acc_lev: u32,
    parent_lev: u32,
)
    ensures
        ({
            let r = spec_tree_of_list_rec(dir, s, acc, acc_lev, parent_lev);
            tree_items(r.0, dir) + r.1 == tree_items(acc, dir) + s && r.1.len() <= s.len()
        }),
    decreases s.len(),
{
    let r = spec_tree_of_list_rec(dir, s, acc, acc_lev, parent_lev);
    if s.len() == 0 {
        assert(tree_items(acc, dir) + s =~= tree_items(acc, dir));
        return;
    }
    let l = item_lev(s[0]);
    if !(acc_lev <= l && l <= parent_lev) {
        return;
    }
    match s[0] {
        NameOrContent::Content(x) => {
            let inner = spec_tree_of_list_rec(dir, s.skip(1), Tree::Leaf(x), 0, l as u32);
            lemma_tree_of_list_rec_items(dir, s.skip(1), Tree::Leaf(x), 0, l as u32);
            let joined = spec_join(dir, l as u32, acc, inner.0);
            assert(tree_items(joined, dir) == tree_items(acc, dir) + tree_items(inner.0, dir));
            lemma_tree_of_list_rec_items(dir, inner.1, joined, l as u32, parent_lev);
            assert(s =~= seq![s[0]] + s.skip(1));
            assert(tree_items(acc, dir) + s =~= tree_items(acc, dir) + (tree_items(inner.0, dir) + inner.1));
        },
        NameOrContent::Name(n) => {
            let names = spec_fork4(n);
            let inner = spec_tree_of_list_rec(dir, s.skip(1), Tree::Nil, 0, l as u32);
            lemma_tree_of_list_rec_items(dir, s.skip(1), Tree::Nil, 0, l as u32);
            let named = spec_join_name(dir, n, l as u32, acc, inner.0);
            let joined = Tree::Art(spec_cell(names.2, named));
            assert(tree_items(named, dir) == tree_items(acc, dir) + seq![NameOrContent::Name(n)]
                + tree_items(inner.0, dir));
            assert(tree_items(joined, dir) == tree_items(named, dir));
            assert(tree_items(Tree::Nil, dir) + s.skip(1) =~= s.skip(1));
            lemma_tree_of_list_rec_items(dir, inner.1, joined, l as u32, parent_lev);
            let outer = spec_tree_of_list_rec(dir, inner.1, joined, l as u32, parent_lev);
            assert(tree_items(Tree::Art(spec_cell(names.3, outer.0)), dir) == tree_items(outer.0, dir));
            assert(s =~= seq![s[0]] + s.skip(1));
            assert(tree_items(acc, dir) + s =~= tree_items(acc, dir) + seq![NameOrContent::Name(n)]
                + (tree_items(inner.0, dir) + inner.1));
        },
    }
}

pub proof fn lemma_item_lev_bound(i: NameOrContent<u64>)
    ensures
        1 <= item_lev(i) <= 66,
{
    match i {
        NameOrContent::Content(x) => lemma_lev_bounds(x, Name::Sym(0)),
        NameOrContent::Name(n) => lemma_lev_bounds(0, n),
    }
}

/// What one call of the building recursion leaves over: nothing, or items
/// that start above `parent_lev`, when the items it was given do not
/// start below `acc_lev`.
pub proof fn lemma_tree_of_list_rec_rest(
    dir: Dir2,
    s: Seq<NameOrContent<u64>>,
    acc: Tree,
    acc_lev: u32,
    parent_lev: u32,
)
    requires
        s.len() == 0 || item_lev(s[0]) >= acc_lev,
    ensures
        ({
            let r = spec_tree_of_list_rec(dir, s, acc, acc_lev, parent_lev);
            r.1.len() == 0 || item_lev(r.1[0]) > parent_lev
        }),
    decreases s.len(),
{
    if s.len() == 0 {
        return;
    }
    let l = item_lev(s[0]);
    if !(acc_lev <= l && l <= parent_lev) {
        return;
    }
    lemma_tree_of_list_rec_items(dir, s, acc, acc_lev, parent_lev);
    match s[0] {
        NameOrContent::Content(x) => {
            let inner = spec_tree_of_list_rec(dir, s.skip(1), Tree::Leaf(x), 0, l as u32);
            lemma_tree_of_list_rec_items(dir, s.skip(1), Tree::Leaf(x), 0, l as u32);
            lemma_tree_of_list_rec_rest(dir, s.skip(1), Tree::Leaf(x), 0, l as u32);
            let joined = spec_join(dir, l as u32, acc, inner.0);
            lemma_tree_of_list_rec_rest(dir, inner.1, joined, l as u32, parent_lev);
        },
        NameOrContent::Name(n) => {
            let names = spec_fork4(n);
            let inner = spec_tree_of_list_rec(dir, s.skip(1), Tree::Nil, 0, l as u32);
            lemma_tree_of_list_rec_items(dir, s.skip(1), Tree::Nil, 0, l as u32);
            lemma_tree_of_list_rec_rest(dir, s.skip(1), Tree::Nil, 0, l as u32);
            let joined = Tree::Art(spec_cell(names.2, spec_join_name(dir, n, l as u32, acc, inner.0)));
            lemma_tree_of_list_rec_rest(dir, inner.1, joined, l as u32, parent_lev);
        },
    }
}

/// Building consumes every item: the items of `tree_of_list(dir, L)`, in
/// direction `dir`, are the items of `L`, names in place.
pub proof fn lemma_tree_of_list_items(dir: Dir2, s: Seq<NameOrContent<u64>>)
    ensures
        tree_items(spec_tree_of_list(dir, s), dir) == s,
        spec_tree_of_list_rec(dir, s, Tree::Nil, 0, LEV_MAX).1.len() == 0,
{
    let r = spec_tree_of_list_rec(dir, s, Tree::Nil, 0, LEV_MAX);
    lemma_tree_of_list_rec_items(dir, s, Tree::Nil, 0, LEV_MAX);
    lemma_tree_of_list_rec_rest(dir, s, Tree::Nil, 0, LEV_MAX);
    if r.1.len() > 0 {
        lemma_item_lev_bound(r.1[0]);
    }
    assert(tree_items(Tree::Nil, dir) + s =~= s);
    assert(tree_items(r.0, dir) + r.1 =~= tree_items(r.0, dir));
}

/// In-order preservation: the elements of `tree_of_list(Left, L)`, read
/// in order, are the elements of `L`.
pub proof fn lemma_tree_of_list_in_order(l: List)
    ensures
        contents(tree_items(spec_tree_of_list(Dir2::Left, l@), Dir2::Left)) == contents(l@),
{
    lemma_tree_of_list_items(Dir2::Left, l@);
}

/// Shape determinism and memo soundness: lists with the same items (equal
/// once shared nodes, articulations and embedded trees are seen through)
/// build the same tree.
pub proof fn lemma_tree_of_list_same_items(l1: List, l2: List, dir: Dir2)
    requires
        l1@ == l2@,
    ensures
        spec_tree_of_list(dir, l1@) == spec_tree_of_list(dir, l2@),
{
}

/// The level of a tree's root node, read through articulations: that of a
/// `Bin` or `Name` node, 0 for `Nil` and leaves.
pub open spec fn node_lev(t: Tree) -> u32 {
    match open_tree(t) {
        Tree::Bin(v, _, _) => v,
        Tree::Name(_, v, _, _) => v,
        _ => 0,
    }
}

/// Level invariants: no internal node lies below one of its internal
/// children; a `Bin` node's level comes from an element (at most
/// `LEV_BITS + 1`), a `Name` node's is its name's level (at least `LEV_BITS + 1`).
pub open spec fn levels_ok(t: Tree) -> bool
    decreases t,
{
    match t {
        Tree::Nil => true,
        Tree::Leaf(_) => true,
        Tree::Bin(v, l, r) => node_lev(*l) <= v && node_lev(*r) <= v && v <= LEV_BITS + 1 && levels_ok(
            *l,
        ) && levels_ok(*r),
        Tree::Name(n, v, l, r) => node_lev(*l) <= v && node_lev(*r) <= v && v == spec_lev_name(n)
            && levels_ok(*l) && levels_ok(*r),
        Tree::Rc(rc) => levels_ok(*rc),
        Tree::Art(a) => levels_ok(*a.content),
    }
}

proof fn lemma_tree_of_list_rec_levels(
    dir: Dir2,
    s: Seq<NameOrContent<u64>>,
    acc: Tree,
    acc_lev: u32,
    parent_lev: u32,
)
    requires
        levels_ok(acc),
        node_lev(acc) <= acc_lev <= parent_lev,
    ensures
        ({
            let r = spec_tree_of_list_rec(dir, s, acc, acc_lev, parent_lev);
            levels_ok(r.0) && node_lev(r.0) <= parent_lev
        }),
    decreases s.len(),
{
    if s.len() == 0 {
        return;
    }
    let l = item_lev(s[0]);
    if !(acc_lev <= l && l <= parent_lev) {
        return;
    }
    lemma_tree_of_list_rec_items(dir, s, acc, acc_lev, parent_lev);
    match s[0] {
        NameOrContent::Content(x) => {
            lemma_lev_bounds(x, Name::Sym(0));
            let inner = spec_tree_of_list_rec(dir, s.skip(1), Tree::Leaf(x), 0, l as u32);
            lemma_tree_of_list_rec_items(dir, s.skip(1), Tree::Leaf(x), 0, l as u32);
            lemma_tree_of_list_rec_levels(dir, s.skip(1), Tree::Leaf(x), 0, l as u32);
            let joined = spec_join(dir, l as u32, acc, inner.0);
            assert(levels_ok(joined) && node_lev(joined) == l);
            lemma_tree_of_list_rec_levels(dir, inner.1, joined, l as u32, parent_lev);
        },
        NameOrContent::Name(n) => {
            let names = spec_fork4(n);
            let inner = spec_tree_of_list_rec(dir, s.skip(1), Tree::Nil, 0, l as u32);
            lemma_tree_of_list_rec_items(dir, s.skip(1), Tree::Nil, 0, l as u32);
            lemma_tree_of_list_rec_levels(dir, s.skip(1), Tree::Nil, 0, l as u32);
            let named = spec_join_name(dir, n, l as u32, acc, inner.0);
            let joined = Tree::Art(spec_cell(names.2, named));
            assert(levels_ok(named) && node_lev(named) == l);
            assert(open_tree(joined) == open_tree(named));
            assert(levels_ok(joined) && node_lev(joined) == l);
            lemma_tree_of_list_rec_levels(dir, inner.1, joined, l as u32, parent_lev);
            let outer = spec_tree_of_list_rec(dir, inner.1, joined, l as u32, parent_lev);
            let last = Tree::Art(spec_cell(names.3, outer.0));
            assert(open_tree(last) == open_tree(outer.0));
        },
    }
}

/// Level invariants of built trees: on every node of `tree_of_list(dir, L)`
/// internal levels do not increase downwards, `Bin` levels come from
/// elements and `Name` levels, never below a `Bin` level, from names
/// (`levels_ok`).
pub proof fn lemma_tree_of_list_levels(dir: Dir2, s: Seq<NameOrContent<u64>>)
    ensures
        levels_ok(spec_tree_of_list(dir, s)),
{
    lemma_tree_of_list_rec_levels(dir, s, Tree::Nil, 0, LEV_MAX);
}

/// A binary operation that can be called on any two elements and gives
/// one result for them.
pub open spec fn binop_ok<F: Fn(u64, u64) -> u64>(f: F) -> bool {
    &&& forall|a: u64, b: u64| #[trigger] f.requires((a, b))
    &&& forall|a: u64, b: u64, r1: u64, r2: u64|
        #[trigger] f.ensures((a, b), r1) && #[trigger] f.ensures((a, b), r2) ==> r1 == r2
}

/// The operation that `f` computes.
pub open spec fn binop_fn<F: Fn(u64, u64) -> u64>(f: F) -> spec_fn(u64, u64) -> u64 {
    |a: u64, b: u64| choose|r: u64| f.ensures((a, b), r)
}

/// A predicate that can be called on any element and gives one answer.
pub open spec fn pred_ok<F: Fn(u64) -> bool>(f: F) -> bool {
    &&& forall|x: u64| #[trigger] f.requires((x,))
    &&& forall|x: u64, b1: bool, b2: bool|
        #[trigger] f.ensures((x,), b1) && #[trigger] f.ensures((x,), b2) ==> b1 == b2
}

/// The predicate that `f` computes.
pub open spec fn pred_fn<F: Fn(u64) -> bool>(f: F) -> spec_fn(u64) -> bool {
    |x: u64| choose|b: bool| f.ensures((x,), b)
}

/// `(zero, op)` is a monoid: `op` is associative and `zero` its identity.
pub open spec fn is_monoid(zero: u64, op: spec_fn(u64, u64) -> u64) -> bool {
    &&& forall|a: u64, b: u64, c: u64| #[trigger] op(op(a, b), c) == op(a, op(b, c))
    &&& forall|a: u64| #[trigger] op(zero, a) == a
    &&& forall|a: u64| #[trigger] op(a, zero) == a
}

/// A bottom-up fold of a tree: `zero` for `Nil`, the element for a leaf,
/// `op` of the children's results for `Bin` and `Name` nodes.
pub open spec fn spec_tree_reduce(t: Tree, zero: u64, op: spec_fn(u64, u64) -> u64) -> u64
    decreases t,
{
    match t {
        Tree::Nil => zero,
        Tree::Leaf(x) => x,
        Tree::Bin(_, l, r) => op(spec_tree_reduce(*l, zero, op), spec_tree_reduce(*r, zero, op)),
        Tree::Name(_, _, l, r) => op(spec_tree_reduce(*l, zero, op), spec_tree_reduce(*r, zero, op)),
        Tree::Rc(rc) => spec_tree_reduce(*rc, zero, op),
        Tree::Art(a) => spec_tree_reduce(*a.content, zero, op),
    }
}

proof fn lemma_fold_concat(a: Seq<u64>, b: Seq<u64>, zero: u64, op: spec_fn(u64, u64) -> u64)
    requires
        is_monoid(zero, op),
    ensures
        (a + b).fold_left(zero, op) == op(a.fold_left(zero, op), b.fold_left(zero, op)),
    decreases b.len(),
{
    if b.len() == 0 {
        assert(a + b =~= a);
    } else {
        lemma_fold_concat(a, b.drop_last(), zero, op);
        assert((a + b).drop_last() =~= a + b.drop_last());
        assert((a + b).last() == b.last());
    }
}

/// Reduce = fold: for a monoid, the bottom-up fold of any tree is the left
/// fold of its elements in order.
pub proof fn lemma_tree_reduce_is_fold(t: Tree, zero: u64, op: spec_fn(u64, u64) -> u64)
    requires
        is_monoid(zero, op),
    ensures
        spec_tree_reduce(t, zero, op) == contents(tree_items(t, Dir2::Left)).fold_left(zero, op),
    decreases t,
{
    let d = Dir2::Left;
    match t {
        Tree::Nil => {
            assert(contents(tree_items(t, d)) =~= Seq::<u64>::empty());
        },
        Tree::Leaf(x) => {
            lemma_contents_single(NameOrContent::Content(x));
            assert(seq![x].drop_last() =~= Seq::<u64>::empty());
            assert(Seq::<u64>::empty().fold_left(zero, op) == zero);
            assert(seq![x].fold_left(zero, op) == op(zero, x));
            assert(spec_tree_reduce(t, zero, op) == contents(tree_items(t, d)).fold_left(zero, op));
        },
        Tree::Bin(_, l, r) => {
            lemma_tree_reduce_is_fold(*l, zero, op);
            lemma_tree_reduce_is_fold(*r, zero, op);
            lemma_contents_append(tree_items(*l, d), tree_items(*r, d));
            lemma_fold_concat(contents(tree_items(*l, d)), contents(tree_items(*r, d)), zero, op);
            assert(spec_tree_reduce(t, zero, op) == contents(tree_items(t, d)).fold_left(zero, op));
        },
        Tree::Name(n, _, l, r) => {
            lemma_tree_reduce_is_fold(*l, zero, op);
            lemma_tree_reduce_is_fold(*r, zero, op);
            let nm = seq![NameOrContent::Name(n)];
            lemma_contents_append(tree_items(*l, d), nm);
            lemma_contents_append(tree_items(*l, d) + nm, tree_items(*r, d));
            lemma_contents_single(NameOrContent::Name(n));
            assert(contents(tree_items(*l, d)) + contents(nm) =~= contents(tree_items(*l, d)));
            lemma_fold_concat(contents(tree_items(*l, d)), contents(tree_items(*r, d)), zero, op);
            assert(spec_tree_reduce(t, zero, op) == contents(tree_items(t, d)).fold_left(zero, op));
        },
        Tree::Rc(_) | Tree::Art(_) => {
            lemma_tree_reduce_is_fold(tree_inner(t), zero, op);
            assert(tree_items(t, d) == tree_items(tree_inner(t), d));
            assert(spec_tree_reduce(t, zero, op) == spec_tree_reduce(tree_inner(t), zero, op));
        },
    }
}

/// Reduces a tree bottom-up with `binop`: `zero` for `Nil`, the element for a
/// leaf, `binop` of the children's results at each internal node. For a
/// monoid this is the left fold of the elements in order.
pub fn tree_reduce_monoid<F: Fn(u64, u64) -> u64>(tree: Tree, zero: u64, binop: &F) -> (r: u64)
    requires
        binop_ok(*binop),
    ensures
        r == spec_tree_reduce(tree, zero, binop_fn(*binop)),
        is_monoid(zero, binop_fn(*binop)) ==> r == contents(tree_items(tree, Dir2::Left)).fold_left(
            zero,
            binop_fn(*binop),
        ),
    decreases tree_size(tree),
{
    proof {
        if is_monoid(zero, binop_fn(*binop)) {
            lemma_tree_reduce_is_fold(tree, zero, binop_fn(*binop));
        }
    }
    match tree {
        Tree::Nil => zero,
        Tree::Leaf(x) => x,
        Tree::Bin(_, l, r) => {
            let a = tree_reduce_monoid(*l, zero, binop);
            let b = tree_reduce_monoid(*r, zero, binop);
            let c = binop(a, b);
            assert(binop_fn(*binop)(a, b) == c);
            c
        },
        Tree::Name(_, _, l, r) => {
            let a = tree_reduce_monoid(*l, zero, binop);
            let b = tree_reduce_monoid(*r, zero, binop);
            let c = binop(a, b);
            assert(binop_fn(*binop)(a, b) == c);
            c
        },
        Tree::Rc(rc) => tree_reduce_monoid((*rc).duplicate(), zero, binop),
        Tree::Art(a) => tree_reduce_monoid(a.force().duplicate(), zero, binop),
    }
}

/// Builds the tree of `list` in direction `Left` and reduces it with
/// `binop`. For a monoid this is the left fold of the list's elements.
pub fn list_reduce_monoid<F: Fn(u64, u64) -> u64>(list: List, zero: u64, binop: &F) -> (r: u64)
    requires
        binop_ok(*binop),
    ensures
        r == spec_tree_reduce(spec_tree_of_list(Dir2::Left, list@), zero, binop_fn(*binop)),
        is_monoid(zero, binop_fn(*binop)) ==> r == contents(list@).fold_left(zero, binop_fn(*binop)),
{
    proof {
        lemma_tree_of_list_items(Dir2::Left, list@);
    }
    let tree = tree_of_list(Dir2::Left, list);
    tree_reduce_monoid(tree, zero, binop)
}

/// Reduce = fold, of a built tree: for a monoid `(zero, op)`, reducing
/// `tree_of_list(Left, L)` gives the left fold of `L`'s elements.
pub proof fn lemma_reduce_of_list_is_fold(l: List, zero: u64, op: spec_fn(u64, u64) -> u64)
    requires
        is_monoid(zero, op),
    ensures
        spec_tree_reduce(spec_tree_of_list(Dir2::Left, l@), zero, op) == contents(l@).fold_left(zero, op),
{
    lemma_tree_of_list_items(Dir2::Left, l@);
    lemma_tree_reduce_is_fold(spec_tree_of_list(Dir2::Left, l@), zero, op);
}

/// The tree that keeps the shape of `t` and the leaves whose element
/// satisfies `p`, the others replaced by `Nil`; articulations and shared
/// nodes are opened.
pub open spec fn spec_tree_filter(t: Tree, p: spec_fn(u64) -> bool) -> Tree
    decreases t,
{
    match t {
        Tree::Nil => Tree::Nil,
        Tree::Leaf(x) => if p(x) {
            Tree::Leaf(x)
        } else {
            Tree::Nil
        },
        Tree::Bin(v, l, r) => Tree::Bin(
            v,
            Box::new(spec_tree_filter(*l, p)),
            Box::new(spec_tree_filter(*r, p)),
        ),
        Tree::Name(n, v, l, r) => Tree::Name(
            n,
            v,
            Box::new(spec_tree_filter(*l, p)),
            Box::new(spec_tree_filter(*r, p)),
        ),
        Tree::Rc(rc) => spec_tree_filter(*rc, p),
        Tree::Art(a) => spec_tree_filter(*a.content, p),
    }
}

/// Filter composition: filtering by `p`, then by `q`, is filtering by
/// `p` and `q` together.
pub proof fn lemma_tree_filter_compose(t: Tree, p: spec_fn(u64) -> bool, q: spec_fn(u64) -> bool)
    ensures
        spec_tree_filter(spec_tree_filter(t, p), q) == spec_tree_filter(t, |x: u64| p(x) && q(x)),
    decreases t,
{
    match t {
        Tree::Bin(_, l, r) => {
            lemma_tree_filter_compose(*l, p, q);
            lemma_tree_filter_compose(*r, p, q);
        },
        Tree::Name(_, _, l, r) => {
            lemma_tree_filter_compose(*l, p, q);
            lemma_tree_filter_compose(*r, p, q);
        },
        Tree::Rc(_) | Tree::Art(_) => {
            lemma_tree_filter_compose(tree_inner(t), p, q);
        },
        _ => {},
    }
}

/// Filter composition for executable predicates: when `pq` answers as `p`
/// and `q` together, filtering by `p`, then by `q`, is filtering by `pq`.
pub proof fn lemma_tree_filter_compose_fns<P: Fn(u64) -> bool, Q: Fn(u64) -> bool, PQ: Fn(u64) -> bool>(
    t: Tree,
    p: P,
    q: Q,
    pq: PQ,
)
    requires
        forall|x: u64| #[trigger] pred_fn(pq)(x) == (pred_fn(p)(x) && pred_fn(q)(x)),
    ensures
        spec_tree_filter(spec_tree_filter(t, pred_fn(p)), pred_fn(q)) == spec_tree_filter(
            t,
            pred_fn(pq),
        ),
{
    let both = |x: u64| pred_fn(p)(x) && pred_fn(q)(x);
    lemma_tree_filter_compose(t, pred_fn(p), pred_fn(q));
    assert(pred_fn(pq) =~= both);
}

/// Keeps the leaves whose element satisfies `pred`, and the shape of the
/// tree, so that later folds over it find the same structure.
pub fn tree_filter<F: Fn(u64) -> bool>(tree: Tree, pred: &F) -> (r: Tree)
    requires
        pred_ok(*pred),
    ensures
        r == spec_tree_filter(tree, pred_fn(*pred)),
    decreases tree_size(tree),
{
    match tree {
        Tree::Nil => Tree::Nil,
        Tree::Leaf(x) => {
            let keep = pred(x);
            assert(pred_fn(*pred)(x) == keep);
            if keep {
                Tree::Leaf(x)
            } else {
                Tree::Nil
            }
        },
        Tree::Bin(v, l, r) => {
            let l2 = tree_filter(*l, pred);
            let r2 = tree_filter(*r, pred);
            Tree::Bin(v, Box::new(l2), Box::new(r2))
        },
        Tree::Name(n, v, l, r) => {
            let l2 = tree_filter(*l, pred);
            let r2 = tree_filter(*r, pred);
            Tree::Name(n, v, Box::new(l2), Box::new(r2))
        },
        Tree::Rc(rc) => tree_filter((*rc).duplicate(), pred),
        Tree::Art(a) => tree_filter(a.force().duplicate(), pred),
    }
}

fn list_of_tree_onto(tree: Tree, acc: List) -> (r: List)
    ensures
        r@ == tree_items(tree, Dir2::Left) + acc@,
        is_flat(acc) ==> is_flat(r),
    decreases tree_size(tree),
{
    match tree {
        Tree::Nil => {
            assert(tree_items(tree, Dir2::Left) + acc@ =~= acc@);
            acc
        },
        Tree::Leaf(x) => List::Cons(x, Box::new(acc)),
        Tree::Bin(_, l, r) => {
            let a = list_of_tree_onto(*r, acc);
            let b = list_of_tree_onto(*l, a);
            assert(b@ =~= tree_items(tree, Dir2::Left) + acc@);
            b
        },
        Tree::Name(n, _, l, r) => {
            let a = list_of_tree_onto(*r, acc);
            let a = List::Name(n, Box::new(a));
            let b = list_of_tree_onto(*l, a);
            assert(b@ =~= tree_items(tree, Dir2::Left) + acc@);
            b
        },
        Tree::Rc(rc) => list_of_tree_onto((*rc).duplicate(), acc),
        Tree::Art(a) => list_of_tree_onto(a.force().duplicate(), acc),
    }
}

fn rev_list_of_tree_onto(tree: Tree, acc: List) -> (r: List)
    ensures
        r@ == tree_items(tree, Dir2::Right) + acc@,
        is_flat(acc) ==> is_flat(r),
    decreases tree_size(tree),
{
    match tree {
        Tree::Nil => {
            assert(tree_items(tree, Dir2::Right) + acc@ =~= acc@);
            acc
        },
        Tree::Leaf(x) => List::Cons(x, Box::new(acc)),
        Tree::Bin(_, l, r) => {
            let a = rev_list_of_tree_onto(*l, acc);
            let b = rev_list_of_tree_onto(*r, a);
            assert(b@ =~= tree_items(tree, Dir2::Right) + acc@);
            b
        },
        Tree::Name(n, _, l, r) => {
            let a = rev_list_of_tree_onto(*l, acc);
            let a = List::Name(n, Box::new(a));
            let b = rev_list_of_tree_onto(*r, a);
            assert(b@ =~= tree_items(tree, Dir2::Right) + acc@);
            b
        },
        Tree::Rc(rc) => rev_list_of_tree_onto((*rc).duplicate(), acc),
        Tree::Art(a) => rev_list_of_tree_onto(a.force().duplicate(), acc),
    }
}

/// Streaming a tree to the right gives its items in reverse order.
pub proof fn lemma_tree_items_reverse(t: Tree)
    ensures
        tree_items(t, Dir2::Right) == tree_items(t, Dir2::Left).reverse(),
    decreases t,
{
    match t {
        Tree::Nil => {
            assert(tree_items(t, Dir2::Right) =~= tree_items(t, Dir2::Left).reverse());
        },
        Tree::Leaf(_) => {
            assert(tree_items(t, Dir2::Right) =~= tree_items(t, Dir2::Left).reverse());
        },
        Tree::Bin(_, l, r) => {
            lemma_tree_items_reverse(*l);
            lemma_tree_items_reverse(*r);
            assert(tree_items(t, Dir2::Right) =~= tree_items(t, Dir2::Left).reverse());
        },
        Tree::Name(_, _, l, r) => {
            lemma_tree_items_reverse(*l);
            lemma_tree_items_reverse(*r);
            assert(tree_items(t, Dir2::Right) =~= tree_items(t, Dir2::Left).reverse());
        },
        Tree::Rc(_) | Tree::Art(_) => {
            lemma_tree_items_reverse(tree_inner(t));
        },
    }
}

/// The list of a tree's items in order, name markers included.
pub fn list_of_tree(tree: Tree) -> (r: List)
    ensures
        r@ == tree_items(tree, Dir2::Left),
        is_flat(r),
{
    let r = list_of_tree_onto(tree, List::Nil);
    assert(r@ =~= tree_items(tree, Dir2::Left));
    r
}

/// The list of a tree's items in reverse order, name markers included.
pub fn rev_list_of_tree(tree: Tree) -> (r: List)
    ensures
        r@ == tree_items(tree, Dir2::Right),
        is_flat(r),
        r@ == tree_items(tree, Dir2::Left).reverse(),
{
    proof {
        lemma_tree_items_reverse(tree);
    }
    let r = rev_list_of_tree_onto(tree, List::Nil);
    assert(r@ =~= tree_items(tree, Dir2::Right));
    r
}

/// Round trip: the list of the tree built from `L` has `L`'s items, with
/// shared nodes, articulations and embedded trees seen through.
pub proof fn lemma_round_trip(l: List)
    ensures
        tree_items(spec_tree_of_list(Dir2::Left, l@), Dir2::Left) == l@,
{
    lemma_tree_of_list_items(Dir2::Left, l@);
}

/// The items of a vector of elements, first to last.
pub open spec fn vec_items(v: Seq<u64>) -> Seq<NameOrContent<u64>> {
    v.map_values(|x: u64| NameOrContent::Content(x))
}

/// The list of a vector's elements, in order.
pub fn list_of_vec(v: Vec<u64>) -> (r: List)
    ensures
        r@ == vec_items(v@),
        is_plain(r),
{
    let mut l = List::Nil;
    let mut i: usize = v.len();
    while i > 0
        invariant
            i <= v@.len(),
            l@ == vec_items(v@.subrange(i as int, v@.len() as int)),
            is_plain(l),
        decreases i,
    {
        i = i - 1;
        l = List::Cons(v[i], Box::new(l));
        assert(l@ =~= vec_items(v@.subrange(i as int, v@.len() as int)));
    }
    assert(v@.subrange(0, v@.len() as int) =~= v@);
    l
}

/// The list of a vector's elements, in reverse order.
pub fn rev_list_of_vec(v: Vec<u64>) -> (r: List)
    ensures
        r@ == vec_items(v@).reverse(),
        is_plain(r),
{
    let mut l = List::Nil;
    let mut i: usize = 0;
    while i < v.len()
        invariant
            i <= v@.len(),
            l@ == vec_items(v@.subrange(0, i as int)).reverse(),
            is_plain(l),
        decreases v@.len() - i,
    {
        l = List::Cons(v[i], Box::new(l));
        i = i + 1;
        assert(l@ =~= vec_items(v@.subrange(0, i as int)).reverse());
    }
    assert(v@.subrange(0, v@.len() as int) =~= v@);
    l
}

/// Appends two trees: builds the tree of the items of `tree1` followed by
/// those of `tree2`, both streamed in order. The result is the one tree that
/// `tree_of_list` gives for those items, so it has the same level invariants;
/// the cost is linear in the number of items.
pub fn tree_append(tree1: Tree, tree2: Tree) -> (r: Tree)
    ensures
        r == spec_tree_of_list(
            Dir2::Left,
            tree_items(tree1, Dir2::Left) + tree_items(tree2, Dir2::Left),
        ),
        tree_items(r, Dir2::Left) == tree_items(tree1, Dir2::Left) + tree_items(tree2, Dir2::Left),
        levels_ok(r),
{
    let ghost s = tree_items(tree1, Dir2::Left) + tree_items(tree2, Dir2::Left);
    let nil = List::Nil;
    assert(nil@ == Seq::<NameOrContent<u64>>::empty());
    let second = List::Tree(Box::new(tree2), Dir2::Left, Box::new(nil));
    assert(second@ =~= tree_items(tree2, Dir2::Left));
    let both = List::Tree(Box::new(tree1), Dir2::Left, Box::new(second));
    assert(both@ =~= s);
    tree_of_list(Dir2::Left, both)
}

/// The items of `list_merge(n1, s1, n2, s2)`: elements merged in
/// ascending order, `s1` first on ties. When the winning side's pending
/// name is set, the merge emits that name's second fork before the element.
pub open spec fn spec_list_merge(
    n1: Option<Name>,
    s1: Seq<NameOrContent<u64>>,
    n2: Option<Name>,
    s2: Seq<NameOrContent<u64>>,
) -> Seq<NameOrContent<u64>>
    decreases s1.len() + s2.len(),
{
    if s1.len() == 0 {
        s2
    } else {
        match s1[0] {
            NameOrContent::Name(m1) => spec_list_merge(Some(m1), s1.skip(1), n2, s2),
            NameOrContent::Content(h1) => if s2.len() == 0 {
                s1
            } else {
                match s2[0] {
                    NameOrContent::Name(m2) => spec_list_merge(n1, s1, Some(m2), s2.skip(1)),
                    NameOrContent::Content(h2) => if h1 <= h2 {
                        let rest = seq![NameOrContent::Content(h1)] + spec_list_merge(
                            None,
                            s1.skip(1),
                            n2,
                            s2,
                        );
                        match n1 {
                            None => rest,
                            Some(n) => seq![NameOrContent::Name(spec_fork(n).1)] + rest,
                        }
                    } else {
                        let rest = seq![NameOrContent::Content(h2)] + spec_list_merge(
                            n1,
                            s1,
                            None,
                            s2.skip(1),
                        );
                        match n2 {
                            None => rest,
                            Some(n) => seq![NameOrContent::Name(spec_fork(n).1)] + rest,
                        }
                    },
                }
            },
        }
    }
}

/// The list that `list_merge(n1, l1, n2, l2)` builds. `l1` is opened by
/// `elim`: when it ends, the result is `l2` as given; a name marker on it
/// becomes its pending name. Otherwise `l2` is opened: when it ends, the
/// result is `l1`'s opened list; a name marker on it becomes its pending
/// name. With two elements, the smaller (`l1`'s on ties) is consed onto the
/// merge of the rest; when its side has a pending name, that rest is stored
/// in an articulation under the name's first fork, and the name's second
/// fork marks the result.
pub open spec fn spec_list_merge_list(n1: Option<Name>, l1: List, n2: Option<Name>, l2: List) -> List
    decreases l1@.len() + l2@.len(),
{
    let h1 = spec_elim(l1);
    match h1 {
        List::Nil => l2,
        List::Name(m1, t1) => if (*t1)@.len() < l1@.len() {
            spec_list_merge_list(Some(m1), *t1, n2, l2)
        } else {
            List::Nil
        },
        List::Cons(a, t1) => {
            let h2 = spec_elim(l2);
            match h2 {
                List::Nil => h1,
                List::Name(m2, t2) => if h1@.len() + (*t2)@.len() < l1@.len() + l2@.len() {
                    spec_list_merge_list(n1, h1, Some(m2), *t2)
                } else {
                    List::Nil
                },
                List::Cons(b, t2) => if a <= b {
                    if (*t1)@.len() + h2@.len() < l1@.len() + l2@.len() {
                        let rest = spec_list_merge_list(None, *t1, n2, h2);
                        match n1 {
                            None => List::Cons(a, Box::new(rest)),
                            Some(n) => List::Name(
                                spec_fork(n).1,
                                Box::new(
                                    List::Cons(a, Box::new(List::Art(spec_cell(spec_fork(n).0, rest)))),
                                ),
                            ),
                        }
                    } else {
                        List::Nil
                    }
                } else {
                    if h1@.len() + (*t2)@.len() < l1@.len() + l2@.len() {
                        let rest = spec_list_merge_list(n1, h1, None, *t2);
                        match n2 {
                            None => List::Cons(b, Box::new(rest)),
                            Some(n) => List::Name(
                                spec_fork(n).1,
                                Box::new(
                                    List::Cons(b, Box::new(List::Art(spec_cell(spec_fork(n).0, rest)))),
                                ),
                            ),
                        }
                    } else {
                        List::Nil
                    }
                },
                _ => List::Nil,
            }
        },
        _ => List::Nil,
    }
}

/// Merges two lists, each optionally fronted by a pending name. The side
/// whose element is taken (the first on ties) consumes its name: the rest of
/// the merge is stored in an articulation under the name's first fork, and
/// its second fork marks the result.
pub fn list_merge(n1: Option<Name>, l1: List, n2: Option<Name>, l2: List) -> (r: List)
    ensures
        r == spec_list_merge_list(n1, l1, n2, l2),
        r@ == spec_list_merge(n1, l1@, n2, l2@),
        n1 is None && n2 is None && is_plain(l1) && is_plain(l2) ==> is_plain(r),
    decreases l1@.len() + l2@.len(),
{
    let ghost s1 = l1@;
    let ghost s2 = l2@;
    let l1 = l1.elim();
    match l1 {
        List::Nil => l2,
        List::Name(m1, t1) => {
            assert(s1.skip(1) =~= t1@);
            list_merge(Some(m1), *t1, n2, l2)
        },
        List::Cons(h1, t1) => {
            assert(s1.skip(1) =~= t1@);
            let l2 = l2.elim();
            match l2 {
                List::Nil => List::Cons(h1, t1),
                List::Name(m2, t2) => {
                    assert(s2.skip(1) =~= t2@);
                    list_merge(n1, List::Cons(h1, t1), Some(m2), *t2)
                },
                List::Cons(h2, t2) => {
                    assert(s2.skip(1) =~= t2@);
                    if h1 <= h2 {
                        let l2 = List::Cons(h2, t2);
                        match n1 {
                            None => {
                                let rest = list_merge(None, *t1, n2, l2);
                                List::Cons(h1, Box::new(rest))
                            },
                            Some(n1) => {
                                let (n1a, n1b) = name_fork(n1);
                                let rest = list_merge(None, *t1, n2, l2);
                                let ghost merged = rest@;
                                let rest = List::Art(cell(n1a, rest));
                                assert(rest@ == merged);
                                let rest = List::Cons(h1, Box::new(rest));
                                assert(rest@ == seq![NameOrContent::Content(h1)] + merged);
                                let r = List::Name(n1b, Box::new(rest));
                                assert(r@ == seq![NameOrContent::Name(n1b)] + rest@);
                                assert(r@ =~= spec_list_merge(Some(n1), s1, n2, s2));
                                r
                            },
                        }
                    } else {
                        let l1 = List::Cons(h1, t1);
                        match n2 {
                            None => {
                                let rest = list_merge(n1, l1, None, *t2);
                                List::Cons(h2, Box::new(rest))
                            },
                            Some(n2) => {
                                let (n2a, n2b) = name_fork(n2);
                                let rest = list_merge(n1, l1, None, *t2);
                                let ghost merged = rest@;
                                let rest = List::Art(cell(n2a, rest));
                                assert(rest@ == merged);
                                let rest = List::Cons(h2, Box::new(rest));
                                assert(rest@ == seq![NameOrContent::Content(h2)] + merged);
                                let r = List::Name(n2b, Box::new(rest));
                                assert(r@ == seq![NameOrContent::Name(n2b)] + rest@);
                                assert(r@ =~= spec_list_merge(n1, s1, Some(n2), s2));
                                r
                            },
                        }
                    }
                },
                _ => {
                    proof {
                        assert(false);
                    }
                    List::Nil
                },
            }
        },
        _ => {
            proof {
                assert(false);
            }
            List::Nil
        },
    }
}

/// `s` is in ascending order.
pub open spec fn sorted(s: Seq<u64>) -> bool {
    forall|i: int, j: int| 0 <= i < j < s.len() ==> s[i] <= s[j]
}

/// The stable merge of two element sequences: the smaller head first, the
/// head of `a` on ties.
pub open spec fn merge_seq(a: Seq<u64>, b: Seq<u64>) -> Seq<u64>
    decreases a.len() + b.len(),
{
    if a.len() == 0 {
        b
    } else if b.len() == 0 {
        a
    } else if a[0] <= b[0] {
        seq![a[0]] + merge_seq(a.skip(1), b)
    } else {
        seq![b[0]] + merge_seq(a, b.skip(1))
    }
}

proof fn lemma_contents_cons(i: NameOrContent<u64>, s: Seq<NameOrContent<u64>>)
    ensures
        contents(seq![i] + s) == contents(seq![i]) + contents(s),
        contents(seq![i]) == match i {
            NameOrContent::Content(x) => seq![x],
            NameOrContent::Name(_) => Seq::<u64>::empty(),
        },
{
    lemma_contents_append(seq![i], s);
    lemma_contents_single(i);
}

proof fn lemma_contents_head(s: Seq<NameOrContent<u64>>)
    requires
        s.len() > 0,
    ensures
        s[0] is Content ==> contents(s) == seq![s[0]->Content_0] + contents(s.skip(1)),
        s[0] is Content ==> contents(s).len() > 0 && contents(s)[0] == s[0]->Content_0
            && contents(s).skip(1) == contents(s.skip(1)),
        s[0] is Name ==> contents(s) == contents(s.skip(1)),
{
    if s[0] is Content {
        assert(contents(s).skip(1) =~= contents(s.skip(1)));
    }
}

/// The elements of a merge are the stable merge of the elements.
pub proof fn lemma_list_merge_contents(
    n1: Option<Name>,
    s1: Seq<NameOrContent<u64>>,
    n2: Option<Name>,
    s2: Seq<NameOrContent<u64>>,
)
    ensures
        contents(spec_list_merge(n1, s1, n2, s2)) == merge_seq(contents(s1), contents(s2)),
    decreases s1.len() + s2.len(),
{
    if s1.len() == 0 {
        assert(contents(s1) =~= Seq::<u64>::empty());
        return;
    }
    lemma_contents_head(s1);
    match s1[0] {
        NameOrContent::Name(m1) => {
            lemma_list_merge_contents(Some(m1), s1.skip(1), n2, s2);
        },
        NameOrContent::Content(h1) => {
            if s2.len() == 0 {
                assert(contents(s2) =~= Seq::<u64>::empty());
                return;
            }
            lemma_contents_head(s2);
            match s2[0] {
                NameOrContent::Name(m2) => {
                    lemma_list_merge_contents(n1, s1, Some(m2), s2.skip(1));
                },
                NameOrContent::Content(h2) => {
                    if h1 <= h2 {
                        let m = spec_list_merge(None, s1.skip(1), n2, s2);
                        lemma_list_merge_contents(None, s1.skip(1), n2, s2);
                        lemma_contents_cons(NameOrContent::Content(h1), m);
                        if let Some(n) = n1 {
                            lemma_contents_cons(
                                NameOrContent::Name(spec_fork(n).1),
                                seq![NameOrContent::Content(h1)] + m,
                            );
                            assert(contents(seq![NameOrContent::Name(spec_fork(n).1)]) + contents(
                                seq![NameOrContent::Content(h1)] + m,
                            ) =~= contents(seq![NameOrContent::Content(h1)] + m));
                        }
                    } else {
                        let m = spec_list_merge(n1, s1, None, s2.skip(1));
                        lemma_list_merge_contents(n1, s1, None, s2.skip(1));
                        lemma_contents_cons(NameOrContent::Content(h2), m);
                        if let Some(n) = n2 {
                            lemma_contents_cons(
                                NameOrContent::Name(spec_fork(n).1),
                                seq![NameOrContent::Content(h2)] + m,
                            );
                            assert(contents(seq![NameOrContent::Name(spec_fork(n).1)]) + contents(
                                seq![NameOrContent::Content(h2)] + m,
                            ) =~= contents(seq![NameOrContent::Content(h2)] + m));
                        }
                    }
                },
            }
        },
    }
}

/// A stable merge of sorted sequences is sorted, and holds the elements of
/// both.
pub proof fn lemma_merge_seq_sorted(a: Seq<u64>, b: Seq<u64>)
    requires
        sorted(a),
        sorted(b),
    ensures
        sorted(merge_seq(a, b)),
        merge_seq(a, b).to_multiset() == a.to_multiset().add(b.to_multiset()),
        merge_seq(a, b).len() == a.len() + b.len(),
        merge_seq(a, b).len() > 0 ==> (merge_seq(a, b)[0] == a[0] || merge_seq(a, b)[0] == b[0]),
        merge_seq(a, b).len() > 0 && a.len() > 0 && b.len() > 0 ==> merge_seq(a, b)[0] == if a[0]
            <= b[0] {
            a[0]
        } else {
            b[0]
        },
    decreases a.len() + b.len(),
{
    broadcast use vstd::seq_lib::lemma_multiset_commutative;
    broadcast use vstd::seq_lib::group_to_multiset_ensures;
    broadcast use vstd::multiset::group_multiset_axioms;
    broadcast use vstd::multiset::lemma_multiset_empty_len;

    if a.len() == 0 {
        assert(a.to_multiset() =~= Multiset::<u64>::empty());
        assert(a.to_multiset().add(b.to_multiset()) =~= b.to_multiset());
        return;
    }
    if b.len() == 0 {
        assert(b.to_multiset() =~= Multiset::<u64>::empty());
        assert(a.to_multiset().add(b.to_multiset()) =~= a.to_multiset());
        return;
    }
    if a[0] <= b[0] {
        let m = merge_seq(a.skip(1), b);
        lemma_merge_seq_sorted(a.skip(1), b);
        assert(seq![a[0]] + a.skip(1) =~= a);
        assert(sorted(seq![a[0]] + m)) by {
            assert forall|i: int, j: int| 0 <= i < j < m.len() + 1 implies (seq![a[0]] + m)[i] <= (
            seq![a[0]] + m)[j] by {
                if i == 0 {
                    assert(m[0] == a[1] || m[0] == b[0]);
                    assert(m[0] <= m[j - 1]);
                }
            }
        }
        assert((seq![a[0]] + a.skip(1)).to_multiset() == seq![a[0]].to_multiset().add(
            a.skip(1).to_multiset(),
        ));
        assert(merge_seq(a, b).to_multiset() =~= a.to_multiset().add(b.to_multiset()));
    } else {
        let m = merge_seq(a, b.skip(1));
        lemma_merge_seq_sorted(a, b.skip(1));
        assert(seq![b[0]] + b.skip(1) =~= b);
        assert(sorted(seq![b[0]] + m)) by {
            assert forall|i: int, j: int| 0 <= i < j < m.len() + 1 implies (seq![b[0]] + m)[i] <= (
            seq![b[0]] + m)[j] by {
                if i == 0 {
                    assert(m[0] == a[0] || m[0] == b[1]);
                    assert(m[0] <= m[j - 1]);
                }
            }
        }
        assert((seq![b[0]] + b.skip(1)).to_multiset() == seq![b[0]].to_multiset().add(
            b.skip(1).to_multiset(),
        ));
        assert(merge_seq(a, b).to_multiset() =~= a.to_multiset().add(b.to_multiset()));
    }
}

/// Merge stability: merging lists whose elements are sorted gives sorted
/// elements, those of both lists, each tie resolved by taking the first
/// list's element first.
pub proof fn lemma_list_merge_sorted(
    n1: Option<Name>,
    l1: List,
    n2: Option<Name>,
    l2: List,
)
    requires
        sorted(contents(l1@)),
        sorted(contents(l2@)),
    ensures
        contents(spec_list_merge(n1, l1@, n2, l2@)) == merge_seq(contents(l1@), contents(l2@)),
        sorted(contents(spec_list_merge(n1, l1@, n2, l2@))),
        contents(spec_list_merge(n1, l1@, n2, l2@)).to_multiset() == contents(l1@).to_multiset().add(
            contents(l2@).to_multiset(),
        ),
{
    lemma_list_merge_contents(n1, l1@, n2, l2@);
    lemma_merge_seq_sorted(contents(l1@), contents(l2@));
}

/// The items of the bottom-up merge sort of a tree: a leaf becomes a
/// singleton; a `Bin` node merges its children's lists; a `Name` node merges
/// them with its two forks as their pending names.
pub open spec fn spec_merge_sort_tree(t: Tree) -> Seq<NameOrContent<u64>>
    decreases t,
{
    match t {
        Tree::Nil => Seq::empty(),
        Tree::Leaf(x) => seq![NameOrContent::Content(x)],
        Tree::Bin(_, l, r) => spec_list_merge(
            None,
            spec_merge_sort_tree(*l),
            None,
            spec_merge_sort_tree(*r),
        ),
        Tree::Name(n, _, l, r) => spec_list_merge(
            Some(spec_fork(n).0),
            spec_merge_sort_tree(*l),
            Some(spec_fork(n).1),
            spec_merge_sort_tree(*r),
        ),
        Tree::Rc(rc) => spec_merge_sort_tree(*rc),
        Tree::Art(a) => spec_merge_sort_tree(*a.content),
    }
}

fn merge_sort_tree(tree: Tree) -> (r: List)
    ensures
        r@ == spec_merge_sort_tree(tree),
    decreases tree_size(tree),
{
    match tree {
        Tree::Nil => List::Nil,
        Tree::Leaf(x) => {
            let nil = List::Nil;
            assert(nil@ == Seq::<NameOrContent<u64>>::empty());
            let r = List::Cons(x, Box::new(nil));
            assert(r@ =~= seq![NameOrContent::Content(x)]);
            r
        },
        Tree::Bin(_, l, r) => {
            let left = merge_sort_tree(*l);
            let right = merge_sort_tree(*r);
            list_merge(None, left, None, right)
        },
        Tree::Name(n, _, l, r) => {
            let left = merge_sort_tree(*l);
            let right = merge_sort_tree(*r);
            let (n1, n2) = name_fork(n);
            list_merge(Some(n1), left, Some(n2), right)
        },
        Tree::Rc(rc) => merge_sort_tree((*rc).duplicate()),
        Tree::Art(a) => merge_sort_tree(a.force().duplicate()),
    }
}

/// The merge sort of any tree is sorted and holds the tree's elements.
pub proof fn lemma_merge_sort_tree_sorted(t: Tree)
    ensures
        sorted(contents(spec_merge_sort_tree(t))),
        contents(spec_merge_sort_tree(t)).to_multiset() == contents(
            tree_items(t, Dir2::Left),
        ).to_multiset(),
    decreases t,
{
    broadcast use vstd::seq_lib::lemma_multiset_commutative;

    let d = Dir2::Left;
    match t {
        Tree::Nil => {
            assert(contents(spec_merge_sort_tree(t)) =~= Seq::<u64>::empty());
        },
        Tree::Leaf(x) => {
            lemma_contents_single(NameOrContent::Content(x));
        },
        Tree::Bin(_, l, r) => {
            lemma_merge_sort_tree_sorted(*l);
            lemma_merge_sort_tree_sorted(*r);
            let sl = spec_merge_sort_tree(*l);
            let sr = spec_merge_sort_tree(*r);
            lemma_list_merge_contents(None, sl, None, sr);
            lemma_merge_seq_sorted(contents(sl), contents(sr));
            lemma_contents_append(tree_items(*l, d), tree_items(*r, d));
        },
        Tree::Name(n, _, l, r) => {
            lemma_merge_sort_tree_sorted(*l);
            lemma_merge_sort_tree_sorted(*r);
            let sl = spec_merge_sort_tree(*l);
            let sr = spec_merge_sort_tree(*r);
            lemma_list_merge_contents(Some(spec_fork(n).0), sl, Some(spec_fork(n).1), sr);
            lemma_merge_seq_sorted(contents(sl), contents(sr));
            let nm = seq![NameOrContent::Name(n)];
            lemma_contents_append(tree_items(*l, d), nm);
            lemma_contents_append(tree_items(*l, d) + nm, tree_items(*r, d));
            lemma_contents_single(NameOrContent::Name(n));
            assert(contents(tree_items(*l, d)) + contents(nm) =~= contents(tree_items(*l, d)));
        },
        Tree::Rc(_) | Tree::Art(_) => {
            lemma_merge_sort_tree_sorted(tree_inner(t));
        },
    }
}

/// Sorts a list: builds its tree in direction `Left`, then merges bottom-up.
/// The result's elements are sorted and are those of `list`.
pub fn list_merge_sort(list: List) -> (r: List)
    ensures
        r@ == spec_merge_sort_tree(spec_tree_of_list(Dir2::Left, list@)),
        sorted(contents(r@)),
        contents(r@).to_multiset() == contents(list@).to_multiset(),
{
    proof {
        lemma_sort_correct(list);
    }
    let tree = tree_of_list(Dir2::Left, list);
    merge_sort_tree(tree)
}

/// Sort correctness: the merge sort of `L` is sorted ascending and is a
/// permutation of `L`'s elements.
pub proof fn lemma_sort_correct(l: List)
    ensures
        sorted(contents(spec_merge_sort_tree(spec_tree_of_list(Dir2::Left, l@)))),
        contents(spec_merge_sort_tree(spec_tree_of_list(Dir2::Left, l@))).to_multiset() == contents(
            l@,
        ).to_multiset(),
{
    lemma_tree_of_list_items(Dir2::Left, l@);
    lemma_merge_sort_tree_sorted(spec_tree_of_list(Dir2::Left, l@));
}

} // verus!
