//! Nominal lists and trees, their item sequences, and their eliminators.
use vstd::prelude::*;
use std::rc::Rc;
use crate::art::Art;
use crate::name::{Name, NameOrContent, spec_lev, lev};
use vstd::string::StringExecFns;

verus! {

/// The direction in which a tree is built, and in which it is streamed.
#[derive(Debug, Clone, Copy, PartialEq, Eq, Structural, Hash)]
pub enum Dir2 {
    Left,
    Right,
}

/// A nominal list: a sequence of elements and name markers, with
/// shared parts, articulations and embedded trees that stream their leaves.
#[derive(Debug, PartialEq, Eq)]
pub enum List {
    Nil,
    Cons(u64, Box<List>),
    Tree(Box<Tree>, Dir2, Box<List>),
    Rc(Rc<List>),
    Name(Name, Box<List>),
    Art(Art<List>),
}

/// A nominal tree whose internal nodes carry levels.
#[derive(Debug, PartialEq, Eq)]
pub enum Tree {
    Nil,
    Leaf(u64),
    Bin(u32, Box<Tree>, Box<Tree>),
    Name(Name, u32, Box<Tree>, Box<Tree>),
    Rc(Rc<Tree>),
    Art(Art<Tree>),
}

/// The items of a tree in the order of `dir`: in order for `Left`, in
/// reverse order for `Right`; a name sits between its two subtrees.
/// Shared nodes and articulations are seen through.
pub open spec fn tree_items(t: Tree, dir: Dir2) -> Seq<NameOrContent<u64>>
    decreases t,
{
    match t {
        Tree::Nil => Seq::empty(),
        Tree::Leaf(x) => seq![NameOrContent::Content(x)],
        Tree::Bin(_, l, r) => match dir {
            Dir2::Left => tree_items(*l, dir) + tree_items(*r, dir),
            Dir2::Right => tree_items(*r, dir) + tree_items(*l, dir),
        },
        Tree::Name(n, _, l, r) => match dir {
            Dir2::Left => tree_items(*l, dir) + seq![NameOrContent::Name(n)] + tree_items(*r, dir),
            Dir2::Right => tree_items(*r, dir) + seq![NameOrContent::Name(n)] + tree_items(*l, dir),
        },
        Tree::Rc(rc) => tree_items(*rc, dir),
        Tree::Art(a) => tree_items(*a.content, dir),
    }
}

/// The items of a list: embedded trees streamed in their direction,
/// shared nodes and articulations seen through.
pub open spec fn list_items(l: List) -> Seq<NameOrContent<u64>>
    decreases l,
{
    match l {
        List::Nil => Seq::empty(),
        List::Cons(x, tl) => seq![NameOrContent::Content(x)] + list_items(*tl),
        List::Tree(t, d, tl) => tree_items(*t, d) + list_items(*tl),
        List::Rc(rc) => list_items(*rc),
        List::Name(n, tl) => seq![NameOrContent::Name(n)] + list_items(*tl),
        List::Art(a) => list_items(*a.content),
    }
}

impl View for List {
    type V = Seq<NameOrContent<u64>>;

    open spec fn view(&self) -> Seq<NameOrContent<u64>> {
        list_items(*self)
    }
}

/// The elements of an item sequence, name markers left out.
pub open spec fn contents(s: Seq<NameOrContent<u64>>) -> Seq<u64>
    decreases s.len(),
{
    if s.len() == 0 {
        Seq::empty()
    } else {
        match s[0] {
            NameOrContent::Content(x) => seq![x] + contents(s.skip(1)),
            NameOrContent::Name(_) => contents(s.skip(1)),
        }
    }
}

pub proof fn lemma_contents_append(a: Seq<NameOrContent<u64>>, b: Seq<NameOrContent<u64>>)
    ensures
        contents(a + b) == contents(a) + contents(b),
    decreases a.len(),
{
    if a.len() == 0 {
        assert(a + b =~= b);
    } else {
        lemma_contents_append(a.skip(1), b);
        assert((a + b).skip(1) =~= a.skip(1) + b);
        assert(contents(a + b) =~= contents(a) + contents(b));
    }
}

pub proof fn lemma_contents_single(i: NameOrContent<u64>)
    ensures
        contents(seq![i]) == match i {
            NameOrContent::Content(x) => seq![x],
            NameOrContent::Name(_) => Seq::<u64>::empty(),
        },
{
    assert(seq![i].skip(1) =~= Seq::<NameOrContent<u64>>::empty());
    assert(contents(seq![i].skip(1)) =~= Seq::<u64>::empty());
    if let NameOrContent::Content(x) = i {
        assert(seq![x] + Seq::<u64>::empty() =~= seq![x]);
    }
}

/// A size measure that each step of streaming decreases.
pub open spec fn tree_size(t: Tree) -> nat
    decreases t,
{
    match t {
        Tree::Nil => 1,
        Tree::Leaf(_) => 1,
        Tree::Bin(_, l, r) => 1 + tree_size(*l) + tree_size(*r),
        Tree::Name(_, _, l, r) => 2 + tree_size(*l) + tree_size(*r),
        Tree::Rc(rc) => 1 + tree_size(*rc),
        Tree::Art(a) => 1 + tree_size(*a.content),
    }
}

pub open spec fn list_size(l: List) -> nat
    decreases l,
{
    match l {
        List::Nil => 1,
        List::Cons(_, tl) => 1 + list_size(*tl),
        List::Tree(t, _, tl) => 1 + tree_size(*t) + list_size(*tl),
        List::Rc(rc) => 1 + list_size(*rc),
        List::Name(_, tl) => 1 + list_size(*tl),
        List::Art(a) => 1 + list_size(*a.content),
    }
}

/// What a shared node or an articulation holds.
pub open spec fn tree_inner(t: Tree) -> Tree {
    match t {
        Tree::Rc(rc) => *rc,
        Tree::Art(a) => *a.content,
        _ => t,
    }
}

/// The node that a tree stands for once shared nodes and articulations
/// are opened.
pub open spec fn open_tree(t: Tree) -> Tree
    decreases t,
{
    match t {
        Tree::Rc(rc) => open_tree(*rc),
        Tree::Art(a) => open_tree(*a.content),
        _ => t,
    }
}

/// The level of a tree: 0 for `Nil`, the element's level for a leaf, the
/// stored level for an internal node.
pub open spec fn spec_lev_of_tree(t: Tree) -> u32 {
    match open_tree(t) {
        Tree::Leaf(x) => spec_lev(x),
        Tree::Bin(l, _, _) => l,
        Tree::Name(_, l, _, _) => l,
        _ => 0,
    }
}

impl Tree {
    /// A copy equal to `self`; shared parts stay shared.
    pub fn duplicate(&self) -> (r: Tree)
        ensures
            r == *self,
        decreases *self,
    {
        match self {
            Tree::Nil => Tree::Nil,
            Tree::Leaf(x) => Tree::Leaf(*x),
            Tree::Bin(v, l, r) => Tree::Bin(*v, Box::new(l.duplicate()), Box::new(r.duplicate())),
            Tree::Name(n, v, l, r) => Tree::Name(
                n.duplicate(),
                *v,
                Box::new(l.duplicate()),
                Box::new(r.duplicate()),
            ),
            Tree::Rc(rc) => Tree::Rc(crate::art::share(rc)),
            Tree::Art(a) => Tree::Art(a.duplicate()),
        }
    }

    /// Opens shared nodes and articulations until a `Nil`, `Leaf`, `Bin`
    /// or `Name` node shows.
    pub fn elim(self) -> (r: Tree)
        ensures
            r == open_tree(self),
        decreases self,
    {
        match self {
            Tree::Rc(rc) => {
                let t = (*rc).duplicate();
                Tree::elim(t)
            },
            Tree::Art(a) => {
                let t = a.force().duplicate();
                Tree::elim(t)
            },
            _ => self,
        }
    }

    /// The level of a tree, read through shared nodes and articulations.
    pub fn lev_of_tree(tree: &Tree) -> (r: u32)
        ensures
            r == spec_lev_of_tree(*tree),
        decreases *tree,
    {
        match tree {
            Tree::Nil => 0,
            Tree::Leaf(x) => lev(*x),
            Tree::Bin(v, _, _) => *v,
            Tree::Name(_, v, _, _) => *v,
            Tree::Rc(rc) => Tree::lev_of_tree(&**rc),
            Tree::Art(a) => Tree::lev_of_tree(a.force()),
        }
    }
}

impl List {
    /// A copy equal to `self`; shared parts stay shared.
    pub fn duplicate(&self) -> (r: List)
        ensures
            r == *self,
        decreases *self,
    {
        match self {
            List::Nil => List::Nil,
            List::Cons(x, tl) => List::Cons(*x, Box::new(tl.duplicate())),
            List::Tree(t, d, tl) => List::Tree(Box::new(t.duplicate()), *d, Box::new(tl.duplicate())),
            List::Rc(rc) => List::Rc(crate::art::share(rc)),
            List::Name(n, tl) => List::Name(n.duplicate(), Box::new(tl.duplicate())),
            List::Art(a) => List::Art(a.duplicate()),
        }
    }
}

/// A list whose first node is `Nil`, `Cons` or `Name`.
pub open spec fn is_head_normal(l: List) -> bool {
    l is Nil || l is Cons || l is Name
}

/// A plain list: `Cons` nodes down to `Nil`, nothing else.
pub open spec fn is_plain(l: List) -> bool
    decreases l,
{
    match l {
        List::Nil => true,
        List::Cons(_, tl) => is_plain(*tl),
        _ => false,
    }
}

/// A flat list: `Cons` and `Name` nodes down to `Nil`, nothing else.
pub open spec fn is_flat(l: List) -> bool
    decreases l,
{
    match l {
        List::Nil => true,
        List::Cons(_, tl) => is_flat(*tl),
        List::Name(_, tl) => is_flat(*tl),
        _ => false,
    }
}

/// One streaming step: `Nil` gives nothing and `rest`; a leaf gives its
/// element and `rest`; shared nodes and articulations go on with what they
/// hold. A `Bin` node goes on with its first child in direction `dir`, the
/// other child embedded ahead of `rest`; a `Name` node does the same with
/// its name marker ahead of that embedded child.
pub open spec fn spec_next_leaf_rec(tree: Tree, dir: Dir2, rest: List) -> (Option<u64>, List)
    decreases tree,
{
    match tree {
        Tree::Nil => (None, rest),
        Tree::Leaf(x) => (Some(x), rest),
        Tree::Rc(rc) => spec_next_leaf_rec(*rc, dir, rest),
        Tree::Art(a) => spec_next_leaf_rec(*a.content, dir, rest),
        Tree::Bin(_, l, r) => match dir {
            Dir2::Left => spec_next_leaf_rec(*l, Dir2::Left, List::Tree(r, Dir2::Left, Box::new(rest))),
            Dir2::Right => spec_next_leaf_rec(
                *r,
                Dir2::Right,
                List::Tree(l, Dir2::Right, Box::new(rest)),
            ),
        },
        Tree::Name(nm, _, l, r) => match dir {
            Dir2::Left => spec_next_leaf_rec(
                *l,
                Dir2::Left,
                List::Name(nm, Box::new(List::Tree(r, Dir2::Left, Box::new(rest)))),
            ),
            Dir2::Right => spec_next_leaf_rec(
                *r,
                Dir2::Right,
                List::Name(nm, Box::new(List::Tree(l, Dir2::Right, Box::new(rest)))),
            ),
        },
    }
}

/// The list that `elim` exposes: shared nodes and articulations opened,
/// embedded trees streamed (see `spec_next_leaf_rec`) until an element or
/// a name marker shows or the list ends.
pub open spec fn spec_elim(l: List) -> List
    decreases list_size(l),
{
    match l {
        List::Rc(rc) => spec_elim(*rc),
        List::Art(a) => spec_elim(*a.content),
        List::Tree(t, d, tl) => {
            let step = spec_next_leaf_rec(*t, d, *tl);
            match step.0 {
                Some(x) => List::Cons(x, Box::new(step.1)),
                None => if list_size(step.1) < list_size(l) {
                    spec_elim(step.1)
                } else {
                    List::Nil
                },
            }
        },
        _ => l,
    }
}

impl List {
    /// Streams one leaf out of `tree` in direction `dir`, ahead of `rest`.
    /// The returned list holds what remains of the tree (its unvisited
    /// subtrees, and the name markers met on the way down) followed by `rest`.
    pub fn next_leaf_rec(tree: Tree, dir: Dir2, rest: List) -> (r: (Option<u64>, List))
        ensures
            r.0 is Some ==> seq![NameOrContent::Content(r.0->Some_0)] + r.1@ == tree_items(tree, dir)
                + rest@,
            r.0 is None ==> r.1@ == tree_items(tree, dir) + rest@,
            list_size(r.1) < 1 + tree_size(tree) + list_size(rest),
            r == spec_next_leaf_rec(tree, dir, rest),
        decreases tree_size(tree),
    {
        match tree {
            Tree::Nil => {
                assert(tree is Nil);
                assert(tree_items(tree, dir) + rest@ =~= rest@);
                assert(list_size(rest) < 1 + tree_size(tree) + list_size(rest));
                (None, rest)
            },
            Tree::Rc(rc) => {
                let t = (*rc).duplicate();
                assert(tree_items(t, dir) == tree_items(tree, dir));
                assert(tree_size(t) < tree_size(tree));
                List::next_leaf_rec(t, dir, rest)
            },
            Tree::Art(a) => {
                let t = a.force().duplicate();
                List::next_leaf_rec(t, dir, rest)
            },
            Tree::Leaf(x) => {
                assert(seq![NameOrContent::Content(x)] + rest@ =~= tree_items(tree, dir) + rest@);
                assert(list_size(rest) < 1 + tree_size(tree) + list_size(rest));
                (Some(x), rest)
            },
            Tree::Bin(_, l, r) => {
                match dir {
                    Dir2::Left => {
                        let res = List::next_leaf_rec(*l, Dir2::Left, List::Tree(r, Dir2::Left, Box::new(rest)));
                        proof {
                            assert(tree_items(tree, dir) + rest@ =~= tree_items(*l, dir) + (tree_items(*r, dir) + rest@));
                            assert(res.0 is Some ==> seq![NameOrContent::Content(res.0->Some_0)] + res.1@
                                =~= tree_items(*l, dir) + (tree_items(*r, dir) + rest@));
                        }
                        res
                    },
                    Dir2::Right => {
                        let res = List::next_leaf_rec(*r, Dir2::Right, List::Tree(l, Dir2::Right, Box::new(rest)));
                        proof {
                            assert(tree_items(tree, dir) + rest@ =~= tree_items(*r, dir) + (tree_items(*l, dir) + rest@));
                        }
                        res
                    },
                }
            },
            Tree::Name(nm, _, l, r) => {
                match dir {
                    Dir2::Left => {
                        let inner = List::Tree(r, Dir2::Left, Box::new(rest));
                        assert(inner@ == tree_items(*r, dir) + rest@);
                        let named = List::Name(nm, Box::new(inner));
                        assert(named@ == seq![NameOrContent::Name(nm)] + inner@);
                        assert(list_size(named) == 1 + list_size(inner));
                        let res = List::next_leaf_rec(*l, Dir2::Left, named);
                        proof {
                            assert(tree_items(tree, dir) + rest@ =~= tree_items(*l, dir) + (seq![
                                NameOrContent::Name(nm)] + (tree_items(*r, dir) + rest@)));
                        }
                        res
                    },
                    Dir2::Right => {
                        let inner = List::Tree(l, Dir2::Right, Box::new(rest));
                        assert(inner@ == tree_items(*l, dir) + rest@);
                        let named = List::Name(nm, Box::new(inner));
                        assert(named@ == seq![NameOrContent::Name(nm)] + inner@);
                        assert(list_size(named) == 1 + list_size(inner));
                        let res = List::next_leaf_rec(*r, Dir2::Right, named);
                        proof {
                            assert(tree_items(tree, dir) + rest@ =~= tree_items(*r, dir) + (seq![
                                NameOrContent::Name(nm)] + (tree_items(*l, dir) + rest@)));
                        }
                        res
                    },
                }
            },
        }
    }

    /// Streams the first leaf out of `tree` in direction `dir`.
    pub fn next_leaf(tree: Tree, dir: Dir2) -> (r: (Option<u64>, List))
        ensures
            r.0 is Some ==> seq![NameOrContent::Content(r.0->Some_0)] + r.1@ == tree_items(tree, dir),
            r.0 is None ==> r.1@ == tree_items(tree, dir),
            r == spec_next_leaf_rec(tree, dir, List::Nil),
    {
        proof {
            assert(tree_items(tree, dir) + List::Nil@ =~= tree_items(tree, dir));
        }
        List::next_leaf_rec(tree, dir, List::Nil)
    }

    /// Opens shared nodes, articulations and embedded trees until the
    /// list starts with `Nil`, `Cons` or `Name`; the items stay the same.
    pub fn elim(self) -> (r: List)
        ensures
            r == spec_elim(self),
            r@ == self@,
            is_head_normal(r),
        decreases list_size(self),
    {
        match self {
            List::Rc(rc) => {
                let l = (*rc).duplicate();
                List::elim(l)
            },
            List::Art(a) => {
                let l = a.force().duplicate();
                List::elim(l)
            },
            List::Tree(t, d, tl) => {
                let (res, rest) = List::next_leaf_rec(*t, d, *tl);
                match res {
                    None => List::elim(rest),
                    Some(x) => List::Cons(x, Box::new(rest)),
                }
            },
            _ => self,
        }
    }

    /// Exposes an embedded tree at the front of the list without streaming
    /// it; a list under a shared node or an articulation is opened as by
    /// `elim`, streaming any tree found there. Other lists come back as they
    /// are.
    pub fn tree_elim(self) -> (r: List)
        ensures
            r == (if self is Rc || self is Art {
                spec_elim(self)
            } else {
                self
            }),
            r@ == self@,
    {
        match self {
            List::Rc(_) | List::Art(_) => self.elim(),
            _ => self,
        }
    }
}

impl List {
    pub fn nil() -> (r: List)
        ensures
            r == List::Nil,
    {
        List::Nil
    }

    pub fn cons(hd: u64, tl: List) -> (r: List)
        ensures
            r == List::Cons(hd, Box::new(tl)),
    {
        List::Cons(hd, Box::new(tl))
    }

    pub fn name(nm: Name, tl: List) -> (r: List)
        ensures
            r == List::Name(nm, Box::new(tl)),
    {
        List::Name(nm, Box::new(tl))
    }

    pub fn rc(rc: Rc<List>) -> (r: List)
        ensures
            r == List::Rc(rc),
    {
        List::Rc(rc)
    }

    pub fn art(art: Art<List>) -> (r: List)
        ensures
            r == List::Art(art),
    {
        List::Art(art)
    }

    /// A list that streams the leaves of `tr` in direction `dir`, then `tl`.
    pub fn tree(tr: Tree, dir: Dir2, tl: List) -> (r: List)
        ensures
            r == List::Tree(Box::new(tr), dir, Box::new(tl)),
    {
        List::Tree(Box::new(tr), dir, Box::new(tl))
    }

    /// The list's elements in order, name markers left out.
    pub fn to_vec(self) -> (r: Vec<u64>)
        ensures
            r@ == contents(self@),
    {
        let mut out: Vec<u64> = Vec::new();
        let mut l = self;
        loop
            invariant
                out@ + contents(l@) == contents(self@),
            ensures
                out@ == contents(self@),
            decreases l@.len(),
        {
            let ghost s = l@;
            let h = l.elim();
            match h {
                List::Cons(x, tl) => {
                    proof {
                        lemma_contents_append(seq![NameOrContent::Content(x)], tl@);
                        lemma_contents_single(NameOrContent::Content(x));
                        assert(out@.push(x) + contents(tl@) =~= out@ + contents(s));
                    }
                    out.push(x);
                    l = *tl;
                },
                List::Name(n, tl) => {
                    proof {
                        lemma_contents_append(seq![NameOrContent::Name(n)], tl@);
                        lemma_contents_single(NameOrContent::Name(n));
                        assert(contents(tl@) =~= contents(s));
                    }
                    l = *tl;
                },
                _ => {
                    assert(contents(s) =~= Seq::<u64>::empty());
                    assert(out@ + contents(s) =~= out@);
                    break ;
                },
            }
        }
        out
    }
}

impl Tree {
    pub fn nil() -> (r: Tree)
        ensures
            r == Tree::Nil,
    {
        Tree::Nil
    }

    pub fn leaf(x: u64) -> (r: Tree)
        ensures
            r == Tree::Leaf(x),
    {
        Tree::Leaf(x)
    }

    pub fn bin(lev: u32, l: Tree, r: Tree) -> (t: Tree)
        ensures
            t == Tree::Bin(lev, Box::new(l), Box::new(r)),
    {
        Tree::Bin(lev, Box::new(l), Box::new(r))
    }

    pub fn name(nm: Name, lev: u32, l: Tree, r: Tree) -> (t: Tree)
        ensures
            t == Tree::Name(nm, lev, Box::new(l), Box::new(r)),
    {
        Tree::Name(nm, lev, Box::new(l), Box::new(r))
    }

    pub fn rc(rc: Rc<Tree>) -> (r: Tree)
        ensures
            r == Tree::Rc(rc),
    {
        Tree::Rc(rc)
    }

    pub fn art(art: Art<Tree>) -> (r: Tree)
        ensures
            r == Tree::Art(art),
    {
        Tree::Art(art)
    }
}

/// The decimal digit `d`.
pub open spec fn digit_text(d: u64) -> Seq<char> {
    if d == 0 {
        "0"@
    } else if d == 1 {
        "1"@
    } else if d == 2 {
        "2"@
    } else if d == 3 {
        "3"@
    } else if d == 4 {
        "4"@
    } else if d == 5 {
        "5"@
    } else if d == 6 {
        "6"@
    } else if d == 7 {
        "7"@
    } else if d == 8 {
        "8"@
    } else {
        "9"@
    }
}

/// `x` in decimal, without leading zeros.
pub open spec fn decimal_text(x: u64) -> Seq<char>
    decreases x,
{
    if x < 10 {
        digit_text(x)
    } else {
        decimal_text(x / 10) + digit_text(x % 10)
    }
}

/// A name as its constructor form: `Sym(7)`, `Fork(Sym(7), true)`.
pub open spec fn name_text(n: Name) -> Seq<char>
    decreases n,
{
    match n {
        Name::Sym(s) => "Sym("@ + decimal_text(s) + ")"@,
        Name::Fork(p, b) => "Fork("@ + name_text(*p) + if b {
            ", true)"@
        } else {
            ", false)"@
        },
    }
}

pub open spec fn dir_text(d: Dir2) -> Seq<char> {
    match d {
        Dir2::Left => "Left"@,
        Dir2::Right => "Right"@,
    }
}

/// The text dump of a tree: each node as its constructor with its fields,
/// an articulation as `Art(..)` around what it holds; a shared node is
/// printed as what it holds.
pub open spec fn tree_text(t: Tree) -> Seq<char>
    decreases t,
{
    match t {
        Tree::Nil => "Nil"@,
        Tree::Leaf(x) => "Leaf("@ + decimal_text(x) + ")"@,
        Tree::Bin(v, l, r) => "Bin("@ + decimal_text(v as u64) + ","@ + tree_text(*l) + ","@ + tree_text(
            *r,
        ) + ")"@,
        Tree::Name(n, v, l, r) => "Name("@ + name_text(n) + ","@ + decimal_text(v as u64) + ","@
            + tree_text(*l) + ","@ + tree_text(*r) + ")"@,
        Tree::Rc(rc) => tree_text(*rc),
        Tree::Art(a) => "Art("@ + tree_text(*a.content) + ")"@,
    }
}

/// The text dump of a list, in the same style as `tree_text`; an embedded
/// tree shows its tree, its direction and its tail.
pub open spec fn list_text(l: List) -> Seq<char>
    decreases l,
{
    match l {
        List::Nil => "Nil"@,
        List::Cons(x, tl) => "Cons("@ + decimal_text(x) + ","@ + list_text(*tl) + ")"@,
        List::Tree(t, d, tl) => "Tree("@ + tree_text(*t) + ","@ + dir_text(d) + ","@ + list_text(*tl)
            + ")"@,
        List::Rc(rc) => list_text(*rc),
        List::Name(n, tl) => "Name("@ + name_text(n) + ","@ + list_text(*tl) + ")"@,
        List::Art(a) => "Art("@ + list_text(*a.content) + ")"@,
    }
}

fn push_digit(s: &mut String, d: u64)
    requires
        d < 10,
    ensures
        final(s)@ == old(s)@ + digit_text(d),
{
    if d == 0 {
        s.append("0");
    } else if d == 1 {
        s.append("1");
    } else if d == 2 {
        s.append("2");
    } else if d == 3 {
        s.append("3");
    } else if d == 4 {
        s.append("4");
    } else if d == 5 {
        s.append("5");
    } else if d == 6 {
        s.append("6");
    } else if d == 7 {
        s.append("7");
    } else if d == 8 {
        s.append("8");
    } else {
        s.append("9");
    }
}

fn push_decimal(s: &mut String, x: u64)
    ensures
        final(s)@ == old(s)@ + decimal_text(x),
    decreases x,
{
    if x < 10 {
        push_digit(s, x);
    } else {
        push_decimal(s, x / 10);
        push_digit(s, x % 10);
        assert(final(s)@ =~= old(s)@ + decimal_text(x));
    }
}

fn push_name(s: &mut String, n: &Name)
    ensures
        final(s)@ == old(s)@ + name_text(*n),
    decreases *n,
{
    match n {
        Name::Sym(x) => {
            s.append("Sym(");
            push_decimal(s, *x);
            s.append(")");
        },
        Name::Fork(p, b) => {
            s.append("Fork(");
            push_name(s, p);
            if *b {
                s.append(", true)");
            } else {
                s.append(", false)");
            }
        },
    }
    assert(final(s)@ =~= old(s)@ + name_text(*n));
}

fn push_tree(s: &mut String, t: &Tree)
    ensures
        final(s)@ == old(s)@ + tree_text(*t),
    decreases *t,
{
    match t {
        Tree::Nil => s.append("Nil"),
        Tree::Leaf(x) => {
            s.append("Leaf(");
            push_decimal(s, *x);
            s.append(")");
        },
        Tree::Bin(v, l, r) => {
            s.append("Bin(");
            push_decimal(s, *v as u64);
            s.append(",");
            push_tree(s, l);
            s.append(",");
            push_tree(s, r);
            s.append(")");
        },
        Tree::Name(n, v, l, r) => {
            s.append("Name(");
            push_name(s, n);
            s.append(",");
            push_decimal(s, *v as u64);
            s.append(",");
            push_tree(s, l);
            s.append(",");
            push_tree(s, r);
            s.append(")");
        },
        Tree::Rc(rc) => push_tree(s, &**rc),
        Tree::Art(a) => {
            s.append("Art(");
            push_tree(s, a.force());
            s.append(")");
        },
    }
    assert(final(s)@ =~= old(s)@ + tree_text(*t));
}

fn push_list(s: &mut String, l: &List)
    ensures
        final(s)@ == old(s)@ + list_text(*l),
    decreases *l,
{
    match l {
        List::Nil => s.append("Nil"),
        List::Cons(x, tl) => {
            s.append("Cons(");
            push_decimal(s, *x);
            s.append(",");
            push_list(s, tl);
            s.append(")");
        },
        List::Tree(t, d, tl) => {
            s.append("Tree(");
            push_tree(s, t);
            s.append(",");
            match d {
                Dir2::Left => s.append("Left"),
                Dir2::Right => s.append("Right"),
            }
            s.append(",");
            push_list(s, tl);
            s.append(")");
        },
        List::Rc(rc) => push_list(s, &**rc),
        List::Name(n, tl) => {
            s.append("Name(");
            push_name(s, n);
            s.append(",");
            push_list(s, tl);
            s.append(")");
        },
        List::Art(a) => {
            s.append("Art(");
            push_list(s, a.force());
            s.append(")");
        },
    }
    assert(final(s)@ =~= old(s)@ + list_text(*l));
}

impl Tree {
    /// The text dump of a tree (see `tree_text`); articulations are forced.
    pub fn get_string(tree: Tree) -> (r: String)
        ensures
            r@ == tree_text(tree),
    {
        let mut s = String::new();
        push_tree(&mut s, &tree);
        assert(s@ =~= tree_text(tree));
        s
    }
}

impl List {
    /// The text dump of a list (see `list_text`); articulations are forced.
    pub fn get_string(list: List) -> (r: String)
        ensures
            r@ == list_text(list),
    {
        let mut s = String::new();
        push_list(&mut s, &list);
        assert(s@ =~= list_text(list));
        s
    }
}

impl Clone for Tree {
    fn clone(&self) -> Self {
        self.duplicate()
    }
}

impl Clone for List {
    fn clone(&self) -> Self {
        self.duplicate()
    }
}

} // verus!
