//! Capability sets for nominal lists and trees, lists with shared tails,
//! trees that keep each element at an internal node, and the level-guided
//! construction of such a tree.
use vstd::prelude::*;
use std::rc::Rc;
use vstd::std_specs::bits::{u64_leading_zeros, axiom_u64_leading_zeros};
use crate::art::{Art, share};
use crate::collection_algo::{binop_ok, binop_fn};
use crate::collection::contents;
use crate::name::{Name, NameOrContent, hash_seeded, hash_words, name_words, LEV_SEED};

verus! {

/// What a nominal list offers: its constructors and one-step elimination,
/// stated over its items.
pub trait ListT: Sized {
    /// The items of the list, shared tails and articulations seen through.
    spec fn items(&self) -> Seq<NameOrContent<u64>>;

    fn nil() -> (r: Self)
        ensures
            r.items() == Seq::<NameOrContent<u64>>::empty(),
    ;

    fn cons(hd: u64, tl: Rc<Self>) -> (r: Self)
        ensures
            r.items() == seq![NameOrContent::Content(hd)] + (*tl).items(),
    ;

    fn name(nm: Name, tl: Rc<Self>) -> (r: Self)
        ensures
            r.items() == seq![NameOrContent::Name(nm)] + (*tl).items(),
    ;

    fn art(art: Art<Self>) -> (r: Self)
        ensures
            r.items() == (*art.content).items(),
    ;

    /// The first item and the rest, or `None` for a list without items.
    fn elim(&self) -> (r: Option<(NameOrContent<u64>, Rc<Self>)>)
        ensures
            r is None <==> self.items().len() == 0,
            r is Some ==> self.items() == seq![r->Some_0.0] + (*r->Some_0.1).items(),
    ;

    /// Folds `consf` over the elements, first to last, starting from `res`.
    fn fold<F: Fn(u64, u64) -> u64>(&self, res: u64, consf: &F) -> (r: u64)
        requires
            binop_ok(*consf),
        ensures
            r == contents(self.items()).fold_left(res, binop_fn(*consf)),
    ;

    fn is_empty(&self) -> (r: bool)
        ensures
            r == (self.items().len() == 0),
    {
        match self.elim() {
            None => true,
            Some(_) => false,
        }
    }
}

/// What a nominal tree offers: its constructors, stated over its items in
/// order (an internal node's element or name between its two subtrees).
pub trait TreeT: Sized {
    spec fn items(&self) -> Seq<NameOrContent<u64>>;

    fn nil() -> (r: Self)
        ensures
            r.items() == Seq::<NameOrContent<u64>>::empty(),
    ;

    fn leaf(x: u64) -> (r: Self)
        ensures
            r.items() == seq![NameOrContent::Content(x)],
    ;

    fn bin(x: u64, l: Rc<Self>, r: Rc<Self>) -> (t: Self)
        ensures
            t.items() == (*l).items() + seq![NameOrContent::Content(x)] + (*r).items(),
    ;

    fn name(nm: Name, l: Rc<Self>, r: Rc<Self>) -> (t: Self)
        ensures
            t.items() == (*l).items() + seq![NameOrContent::Name(nm)] + (*r).items(),
    ;

    fn art(art: Art<Self>) -> (t: Self)
        ensures
            t.items() == (*art.content).items(),
    ;
}

/// A nominal list whose tails are shared.
#[derive(Debug, PartialEq, Eq)]
pub enum List {
    Nil,
    Cons(u64, Rc<List>),
    Name(Name, Rc<List>),
    Art(Art<List>),
}

/// A nominal tree that keeps each element at an internal node.
#[derive(Debug, PartialEq, Eq)]
pub enum Tree {
    Nil,
    Leaf(u64),
    Bin(u64, Rc<Tree>, Rc<Tree>),
    Name(Name, Rc<Tree>, Rc<Tree>),
    Art(Art<Tree>),
}

pub open spec fn list_items(l: List) -> Seq<NameOrContent<u64>>
    decreases l,
{
    match l {
        List::Nil => Seq::empty(),
        List::Cons(x, tl) => seq![NameOrContent::Content(x)] + list_items(*tl),
        List::Name(n, tl) => seq![NameOrContent::Name(n)] + list_items(*tl),
        List::Art(a) => list_items(*a.content),
    }
}

pub open spec fn tree_items(t: Tree) -> Seq<NameOrContent<u64>>
    decreases t,
{
    match t {
        Tree::Nil => Seq::empty(),
        Tree::Leaf(x) => seq![NameOrContent::Content(x)],
        Tree::Bin(x, l, r) => tree_items(*l) + seq![NameOrContent::Content(x)] + tree_items(*r),
        Tree::Name(n, l, r) => tree_items(*l) + seq![NameOrContent::Name(n)] + tree_items(*r),
        Tree::Art(a) => tree_items(*a.content),
    }
}

impl ListT for List {
    open spec fn items(&self) -> Seq<NameOrContent<u64>> {
        list_items(*self)
    }

    fn nil() -> (r: List) {
        List::Nil
    }

    fn cons(hd: u64, tl: Rc<List>) -> (r: List) {
        List::Cons(hd, tl)
    }

    fn name(nm: Name, tl: Rc<List>) -> (r: List) {
        List::Name(nm, tl)
    }

    fn art(art: Art<List>) -> (r: List) {
        List::Art(art)
    }

    fn elim(&self) -> (r: Option<(NameOrContent<u64>, Rc<List>)>)
        decreases *self,
    {
        match self {
            List::Nil => None,
            List::Cons(x, tl) => Some((NameOrContent::Content(*x), share(tl))),
            List::Name(n, tl) => Some((NameOrContent::Name(n.duplicate()), share(tl))),
            List::Art(a) => a.force().elim(),
        }
    }

    fn fold<F: Fn(u64, u64) -> u64>(&self, res: u64, consf: &F) -> (r: u64)
        decreases self.items().len(),
    {
        match self.elim() {
            None => {
                assert(contents(self.items()) =~= Seq::<u64>::empty());
                res
            },
            Some((NameOrContent::Content(x), tl)) => {
                let res2 = consf(res, x);
                assert(binop_fn(*consf)(res, x) == res2);
                let r = (*tl).fold(res2, consf);
                proof {
                    lemma_fold_front(x, (*tl).items(), res, binop_fn(*consf));
                    crate::collection::lemma_contents_append(seq![NameOrContent::Content(x)], (*tl).items());
                    crate::collection::lemma_contents_single(NameOrContent::Content(x));
                }
                r
            },
            Some((NameOrContent::Name(n), tl)) => {
                proof {
                    crate::collection::lemma_contents_append(seq![NameOrContent::Name(n)], (*tl).items());
                    crate::collection::lemma_contents_single(NameOrContent::Name(n));
                    assert(contents(self.items()) =~= contents((*tl).items()));
                }
                (*tl).fold(res, consf)
            },
        }
    }
}

proof fn lemma_fold_front(x: u64, s: Seq<NameOrContent<u64>>, res: u64, f: spec_fn(u64, u64) -> u64)
    ensures
        (seq![x] + contents(s)).fold_left(res, f) == contents(s).fold_left(f(res, x), f),
{
    let c = contents(s);
    let whole = seq![x] + c;
    whole.lemma_fold_left_split(res, f, 1);
    assert(whole.subrange(0, 1) =~= seq![x]);
    assert(whole.subrange(1, whole.len() as int) =~= c);
    assert(seq![x].drop_last() =~= Seq::<u64>::empty());
    assert(Seq::<u64>::empty().fold_left(res, f) == res);
    assert(seq![x].fold_left(res, f) == f(res, x));
}

impl TreeT for Tree {
    open spec fn items(&self) -> Seq<NameOrContent<u64>> {
        tree_items(*self)
    }

    fn nil() -> (r: Tree) {
        Tree::Nil
    }

    fn leaf(x: u64) -> (r: Tree) {
        Tree::Leaf(x)
    }

    fn bin(x: u64, l: Rc<Tree>, r: Rc<Tree>) -> (t: Tree) {
        Tree::Bin(x, l, r)
    }

    fn name(nm: Name, l: Rc<Tree>, r: Rc<Tree>) -> (t: Tree) {
        Tree::Name(nm, l, r)
    }

    fn art(art: Art<Tree>) -> (t: Tree) {
        Tree::Art(art)
    }
}

/// The level at which an item enters a tree of this module: one more than
/// the leading zeros of an element's hash, sixty-five more for a name's.
pub open spec fn entry_lev(i: NameOrContent<u64>) -> int {
    match i {
        NameOrContent::Content(x) => 1 + u64_leading_zeros(hash_seeded(LEV_SEED, seq![x])),
        NameOrContent::Name(n) => 1 + 64 + u64_leading_zeros(hash_seeded(LEV_SEED, name_words(n))),
    }
}

pub proof fn lemma_entry_lev_bound(i: NameOrContent<u64>)
    ensures
        1 <= entry_lev(i) <= 129,
{
    match i {
        NameOrContent::Content(x) => axiom_u64_leading_zeros(hash_seeded(LEV_SEED, seq![x])),
        NameOrContent::Name(n) => axiom_u64_leading_zeros(hash_seeded(LEV_SEED, name_words(n))),
    }
}

/// Extends `left` (of level `left_lev`) with the longest prefix of `s`
/// whose items enter between `left_lev` and `parent_lev`: an item in range
/// becomes an internal node over `left` and the tree of the items after it
/// that enter below it.
pub open spec fn spec_tree_of_list_rec(
    s: Seq<NameOrContent<u64>>,
    left: Tree,
    left_lev: u32,
    parent_lev: u32,
) -> (Tree, Seq<NameOrContent<u64>>)
    decreases s.len(),
{
    if s.len() == 0 {
        (left, s)
    } else {
        let l = entry_lev(s[0]);
        if !(left_lev <= l && l <= parent_lev) {
            (left, s)
        } else {
            let inner = spec_tree_of_list_rec(s.skip(1), Tree::Nil, 0, l as u32);
            let node = match s[0] {
                NameOrContent::Content(x) => Tree::Bin(x, Rc::new(left), Rc::new(inner.0)),
                NameOrContent::Name(n) => Tree::Name(n, Rc::new(left), Rc::new(inner.0)),
            };
            if inner.1.len() < s.len() {
                spec_tree_of_list_rec(inner.1, node, l as u32, parent_lev)
            } else {
                (node, inner.1)
            }
        }
    }
}

fn entry_lev_of(i: &NameOrContent<u64>) -> (r: u32)
    ensures
        r == entry_lev(*i),
{
    let mut w: Vec<u64> = Vec::new();
    match i {
        NameOrContent::Content(x) => {
            w.push(*x);
            assert(w@ =~= seq![*x]);
        },
        NameOrContent::Name(n) => {
            crate::name::push_name_words(n, &mut w);
            assert(w@ =~= name_words(*n));
        },
    }
    let h = hash_words(LEV_SEED, &w);
    proof {
        axiom_u64_leading_zeros(h);
    }
    let z = h.leading_zeros();
    match i {
        NameOrContent::Content(_) => 1 + z,
        NameOrContent::Name(_) => 1 + 64 + z,
    }
}

/// Extends `left_tree` (of level `left_tree_lev`) with the prefix of `list`
/// whose items enter between `left_tree_lev` and `parent_lev`; gives the
/// extended tree and the rest of the list.
pub fn tree_of_list_rec(list: &Rc<List>, left_tree: &Rc<Tree>, left_tree_lev: u32, parent_lev: u32) -> (r: (
    Rc<Tree>,
    Rc<List>,
))
    ensures
        *r.0 == spec_tree_of_list_rec(list_items(**list), **left_tree, left_tree_lev, parent_lev).0,
        list_items(*r.1) == spec_tree_of_list_rec(
            list_items(**list),
            **left_tree,
            left_tree_lev,
            parent_lev,
        ).1,
        list_items(*r.1).len() <= list_items(**list).len(),
    decreases list_items(**list).len(),
{
    let ghost s = (**list).items();
    match (**list).elim() {
        None => (share(left_tree), Rc::new(List::Nil)),
        Some((item, rest)) => {
            assert(s.skip(1) =~= list_items(*rest));
            let lev = entry_lev_of(&item);
            if left_tree_lev <= lev && lev <= parent_lev {
                let nil = Rc::new(Tree::Nil);
                let (right_tree, rest2) = tree_of_list_rec(&rest, &nil, 0, lev);
                let node = match item {
                    NameOrContent::Content(x) => Tree::Bin(x, share(left_tree), right_tree),
                    NameOrContent::Name(n) => Tree::Name(n, share(left_tree), right_tree),
                };
                let node = Rc::new(node);
                tree_of_list_rec(&rest2, &node, lev, parent_lev)
            } else {
                let again = match item {
                    NameOrContent::Content(x) => List::Cons(x, rest),
                    NameOrContent::Name(n) => List::Name(n, rest),
                };
                assert(list_items(again) =~= s);
                (share(left_tree), Rc::new(again))
            }
        },
    }
}

proof fn lemma_tree_of_list_rec_items(
    s: Seq<NameOrContent<u64>>,
    left: Tree,
    left_lev: u32,
    parent_lev: u32,
)
    requires
        s.len() == 0 || entry_lev(s[0]) >= left_lev,
    ensures
        ({
            let r = spec_tree_of_list_rec(s, left, left_lev, parent_lev);
            &&& tree_items(r.0) + r.1 == tree_items(left) + s
            &&& r.1.len() <= s.len()
            &&& (r.1.len() == 0 || entry_lev(r.1[0]) > parent_lev)
        }),
    decreases s.len(),
{
    if s.len() == 0 {
        assert(tree_items(left) + s =~= tree_items(left));
        return;
    }
    let l = entry_lev(s[0]);
    if !(left_lev <= l && l <= parent_lev) {
        return;
    }
    let inner = spec_tree_of_list_rec(s.skip(1), Tree::Nil, 0, l as u32);
    lemma_tree_of_list_rec_items(s.skip(1), Tree::Nil, 0, l as u32);
    let node = match s[0] {
        NameOrContent::Content(x) => Tree::Bin(x, Rc::new(left), Rc::new(inner.0)),
        NameOrContent::Name(n) => Tree::Name(n, Rc::new(left), Rc::new(inner.0)),
    };
    assert(tree_items(node) == tree_items(left) + seq![s[0]] + tree_items(inner.0));
    assert(tree_items(Tree::Nil) + s.skip(1) =~= s.skip(1));
    lemma_tree_of_list_rec_items(inner.1, node, l as u32, parent_lev);
    assert(s =~= seq![s[0]] + s.skip(1));
    assert(tree_items(left) + s =~= tree_items(left) + seq![s[0]] + (tree_items(inner.0) + inner.1));
}

/// The tree of a list's items.
pub open spec fn spec_tree_of_list(s: Seq<NameOrContent<u64>>) -> Tree {
    spec_tree_of_list_rec(s, Tree::Nil, 0, 0xffff_ffffu32).0
}

/// Building consumes every item, and the tree's items in order are the
/// list's items.
pub proof fn lemma_tree_of_list_items(s: Seq<NameOrContent<u64>>)
    ensures
        tree_items(spec_tree_of_list(s)) == s,
        spec_tree_of_list_rec(s, Tree::Nil, 0, 0xffff_ffffu32).1.len() == 0,
{
    let r = spec_tree_of_list_rec(s, Tree::Nil, 0, 0xffff_ffffu32);
    if s.len() > 0 {
        lemma_entry_lev_bound(s[0]);
    }
    lemma_tree_of_list_rec_items(s, Tree::Nil, 0, 0xffff_ffffu32);
    if r.1.len() > 0 {
        lemma_entry_lev_bound(r.1[0]);
    }
    assert(tree_items(Tree::Nil) + s =~= s);
    assert(tree_items(r.0) + r.1 =~= tree_items(r.0));
}

/// Builds the tree of a list: each element and name becomes an internal
/// node, placed by its level; the tree's items in order are the list's.
pub fn tree_of_list(list: &Rc<List>) -> (r: Rc<Tree>)
    ensures
        *r == spec_tree_of_list(list_items(**list)),
        tree_items(*r) == list_items(**list),
{
    proof {
        lemma_tree_of_list_items((**list).items());
    }
    let nil = Rc::new(Tree::Nil);
    let (tree, _rest) = tree_of_list_rec(list, &nil, 0, 0xffff_ffffu32);
    tree
}

} // verus!
