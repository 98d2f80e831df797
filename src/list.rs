//! Nominal, articulated lists over any element type: lists with name
//! markers and articulation points, and the memo-friendly operations on them.
use vstd::prelude::*;
use crate::name::{
    Name, NameOrContent, spec_fork, name_fork, name_words, hash_seeded, hash_words, push_name_words,
};

verus! {

/// A named articulation that owns its content: forcing it moves the
/// content out.
#[derive(Debug, PartialEq, Eq)]
pub struct Nart<T> {
    pub loc: Name,
    pub content: Box<T>,
}

/// Nominal, articulated lists: lists with names and articulation points.
#[derive(Debug, PartialEq, Eq)]
pub enum List<T> {
    Nil,
    Cons(T, Box<List<T>>),
    Name(Name, Box<List<T>>),
    Art(Nart<List<T>>),
}

/// The items of a list, articulations seen through.
pub open spec fn items<T>(l: List<T>) -> Seq<NameOrContent<T>>
    decreases l,
{
    match l {
        List::Nil => Seq::empty(),
        List::Cons(x, tl) => seq![NameOrContent::Content(x)] + items(*tl),
        List::Name(n, tl) => seq![NameOrContent::Name(n)] + items(*tl),
        List::Art(a) => items(*a.content),
    }
}

impl<T> View for List<T> {
    type V = Seq<NameOrContent<T>>;

    open spec fn view(&self) -> Seq<NameOrContent<T>> {
        items(*self)
    }
}

/// The elements of an item sequence, name markers left out.
pub open spec fn elements<T>(s: Seq<NameOrContent<T>>) -> Seq<T>
    decreases s.len(),
{
    if s.len() == 0 {
        Seq::empty()
    } else {
        match s[0] {
            NameOrContent::Content(x) => seq![x] + elements(s.skip(1)),
            NameOrContent::Name(_) => elements(s.skip(1)),
        }
    }
}

/// An item with its name, if any, replaced by that name's second fork.
pub open spec fn renamed<T>(i: NameOrContent<T>) -> NameOrContent<T> {
    match i {
        NameOrContent::Name(n) => NameOrContent::Name(spec_fork(n).1),
        NameOrContent::Content(x) => NameOrContent::Content(x),
    }
}

/// A binary operation that can be called on any two elements and gives one
/// result for them.
pub open spec fn op_ok<T, G: Fn(T, T) -> T>(g: G) -> bool {
    &&& forall|a: T, b: T| #[trigger] g.requires((a, b))
    &&& forall|a: T, b: T, r1: T, r2: T|
        #[trigger] g.ensures((a, b), r1) && #[trigger] g.ensures((a, b), r2) ==> r1 == r2
}

/// The operation that `g` computes.
pub open spec fn op_fn<T, G: Fn(T, T) -> T>(g: G) -> spec_fn(T, T) -> T {
    |a: T, b: T| choose|r: T| g.ensures((a, b), r)
}

/// A relation that can be asked of any two elements and gives one answer.
pub open spec fn rel_ok<T, F: Fn(&T, &T) -> bool>(f: F) -> bool {
    &&& forall|a: &T, b: &T| #[trigger] f.requires((a, b))
    &&& forall|a: &T, b: &T, r1: bool, r2: bool|
        #[trigger] f.ensures((a, b), r1) && #[trigger] f.ensures((a, b), r2) ==> r1 == r2
}

/// The relation that `f` decides.
pub open spec fn rel_fn<T, F: Fn(&T, &T) -> bool>(f: F) -> spec_fn(T, T) -> bool {
    |a: T, b: T| choose|r: bool| f.ensures((&a, &b), r)
}

/// `f` can be asked of any two elements, and answers as `p`.
pub open spec fn computes_rel<T, F: Fn(&T, &T) -> bool>(f: F, p: spec_fn(T, T) -> bool) -> bool {
    &&& forall|a: &T, b: &T| #[trigger] f.requires((a, b))
    &&& forall|a: &T, b: &T, x: bool| #[trigger] f.ensures((a, b), x) ==> x == p(*a, *b)
}

/// `g` can be called on any two elements, and computes `q`.
pub open spec fn computes_op<T, G: Fn(T, T) -> T>(g: G, q: spec_fn(T, T) -> T) -> bool {
    &&& forall|a: T, b: T| #[trigger] g.requires((a, b))
    &&& forall|a: T, b: T, x: T| #[trigger] g.ensures((a, b), x) ==> x == q(a, b)
}

pub proof fn lemma_rel_fn<T, F: Fn(&T, &T) -> bool>(f: F)
    requires
        rel_ok(f),
    ensures
        computes_rel(f, rel_fn(f)),
{
    assert forall|a: &T, b: &T, x: bool| #[trigger] f.ensures((a, b), x) implies x == rel_fn(f)(
        *a,
        *b,
    ) by {
        let y = choose|y: bool| f.ensures((a, b), y);
    }
}

pub proof fn lemma_op_fn<T, G: Fn(T, T) -> T>(g: G)
    requires
        op_ok(g),
    ensures
        computes_op(g, op_fn(g)),
{
    assert forall|a: T, b: T, x: T| #[trigger] g.ensures((a, b), x) implies x == op_fn(g)(a, b) by {
        let y = choose|y: T| g.ensures((a, b), y);
    }
}

impl<T> List<T> {
    /// Forces articulations until the list starts with `Nil`, `Cons` or
    /// `Name`; the items stay the same.
    pub fn elim(self) -> (r: List<T>)
        ensures
            r == spec_head(self),
            r@ == self@,
            !(r is Art),
        decreases self,
    {
        match self {
            List::Art(a) => List::elim(*a.content),
            _ => self,
        }
    }
}

/// The list that `copy` builds: elements kept; each name marker replaced by
/// its second fork, followed by an articulation, under its first fork, of
/// the copy of the rest. Articulations of the input are forced.
pub open spec fn spec_copy<T>(l: List<T>) -> List<T>
    decreases items(l).len(),
{
    match spec_head(l) {
        List::Cons(hd, tl) => if items(*tl).len() < items(l).len() {
            List::Cons(hd, Box::new(spec_copy(*tl)))
        } else {
            List::Nil
        },
        List::Name(nm, tl) => if items(*tl).len() < items(l).len() {
            List::Name(
                spec_fork(nm).1,
                Box::new(List::Art(Nart { loc: spec_fork(nm).0, content: Box::new(spec_copy(*tl)) })),
            )
        } else {
            List::Nil
        },
        _ => List::Nil,
    }
}

/// `r` is what `map(f, l)` builds: an element `x` becomes a result of `f`
/// on `x`; a name marker becomes its second fork, followed by an
/// articulation, under its first fork, of the mapped rest.
pub open spec fn mapped_list<T, S, F: Fn(T) -> S>(f: F, l: List<T>, r: List<S>) -> bool
    decreases items(l).len(),
{
    match (spec_head(l), r) {
        (List::Nil, List::Nil) => true,
        (List::Cons(x, tl), List::Cons(y, rtl)) => f.ensures((x,), y) && items(*tl).len() < items(
            l,
        ).len() && mapped_list(f, *tl, *rtl),
        (List::Name(n, tl), List::Name(m, b)) => m == spec_fork(n).1 && match *b {
            List::Art(a) => a.loc == spec_fork(n).0 && items(*tl).len() < items(l).len() && mapped_list(
                f,
                *tl,
                *a.content,
            ),
            _ => false,
        },
        _ => false,
    }
}

/// The list that one contraction pass builds (its items are
/// `spec_contract`): after each renamed name marker, the rest sits in an
/// articulation under the marker's first fork.
pub open spec fn spec_contract_list<T>(
    p: spec_fn(T, T) -> bool,
    q: spec_fn(T, T) -> T,
    l: List<T>,
) -> List<T>
    decreases items(l).len(),
{
    match spec_head(l) {
        List::Name(nm, tl) => if items(*tl).len() < items(l).len() {
            List::Name(
                spec_fork(nm).1,
                Box::new(
                    List::Art(
                        Nart { loc: spec_fork(nm).0, content: Box::new(spec_contract_list(p, q, *tl)) },
                    ),
                ),
            )
        } else {
            List::Nil
        },
        List::Cons(h1, rest) => match spec_head(*rest) {
            List::Cons(h2, tl) => if items(List::Cons(h2, tl)).len() < items(l).len() {
                if p(h1, h2) {
                    List::Cons(q(h1, h2), Box::new(spec_contract_list(p, q, *tl)))
                } else {
                    List::Cons(h1, Box::new(spec_contract_list(p, q, List::Cons(h2, tl))))
                }
            } else {
                List::Nil
            },
            List::Name(nm, tl) => if items(List::Cons(h1, tl)).len() < items(l).len() {
                List::Name(
                    spec_fork(nm).1,
                    Box::new(
                        List::Art(
                            Nart {
                                loc: spec_fork(nm).0,
                                content: Box::new(spec_contract_list(p, q, List::Cons(h1, tl))),
                            },
                        ),
                    ),
                )
            } else {
                List::Nil
            },
            _ => List::Cons(h1, Box::new(List::Nil)),
        },
        _ => List::Nil,
    }
}

/// The list that `singletons` builds (its items are `spec_singletons`):
/// after a name marker's first fork, the rest sits in an articulation under
/// the first fork of the marker's second fork.
pub open spec fn spec_singletons_list<T>(nameop: Option<Name>, l: List<T>) -> List<List<T>>
    decreases items(l).len(),
{
    match spec_head(l) {
        List::Cons(hd, tl) => if items(*tl).len() < items(l).len() {
            List::Cons(spec_singleton(nameop, hd), Box::new(spec_singletons_list(None, *tl)))
        } else {
            List::Nil
        },
        List::Name(nm, tl) => if items(*tl).len() < items(l).len() {
            List::Name(
                spec_fork(nm).0,
                Box::new(
                    List::Art(
                        Nart {
                            loc: spec_fork(spec_fork(nm).1).0,
                            content: Box::new(
                                spec_singletons_list(Some(spec_fork(spec_fork(nm).1).1), *tl),
                            ),
                        },
                    ),
                ),
            )
        } else {
            List::Nil
        },
        _ => List::Nil,
    }
}

/// A copy of a list whose name markers are renamed to their second forks,
/// each followed by an articulation, under the first fork, of the rest.
pub fn copy<T>(list: List<T>) -> (r: List<T>)
    ensures
        r == spec_copy(list),
        r@ == list@.map_values(|i: NameOrContent<T>| renamed(i)),
    decreases list@.len(),
{
    let ghost s = list@;
    match list.elim() {
        List::Cons(hd, tl) => {
            let rest = copy(*tl);
            let r = List::Cons(hd, Box::new(rest));
            assert(r@ =~= s.map_values(|i: NameOrContent<T>| renamed(i)));
            r
        },
        List::Name(nm, tl) => {
            let (nm1, nm2) = name_fork(nm);
            let rest = copy(*tl);
            let art = List::Art(Nart { loc: nm1, content: Box::new(rest) });
            assert(art@ == rest@);
            let r = List::Name(nm2, Box::new(art));
            assert(r@ =~= s.map_values(|i: NameOrContent<T>| renamed(i)));
            r
        },
        _ => {
            assert(s.map_values(|i: NameOrContent<T>| renamed(i)) =~= Seq::<NameOrContent<T>>::empty());
            List::Nil
        },
    }
}

/// `b` is what mapping sends `a` to: `f`'s result for an element, the
/// second fork for a name.
pub open spec fn mapped<T, S, F: Fn(T) -> S>(f: F, a: NameOrContent<T>, b: NameOrContent<S>) -> bool {
    match (a, b) {
        (NameOrContent::Content(x), NameOrContent::Content(y)) => f.ensures((x,), y),
        (NameOrContent::Name(n), NameOrContent::Name(m)) => m == spec_fork(n).1,
        _ => false,
    }
}

/// Applies `f` to each element; name markers are renamed as by `copy`.
pub fn map<T, S, F: Fn(T) -> S>(f: &F, list: List<T>) -> (r: List<S>)
    requires
        forall|x: T| #[trigger] f.requires((x,)),
    ensures
        mapped_list(*f, list, r),
        r@.len() == list@.len(),
        forall|i: int| 0 <= i < r@.len() ==> mapped(*f, #[trigger] list@[i], r@[i]),
    decreases list@.len(),
{
    let ghost s = list@;
    match list.elim() {
        List::Cons(hd, tl) => {
            let y = f(hd);
            let rest = map(f, *tl);
            let r = List::Cons(y, Box::new(rest));
            assert forall|i: int| 0 <= i < r@.len() implies mapped(*f, #[trigger] s[i], r@[i]) by {
                if i > 0 {
                    assert(s[i] == s.skip(1)[i - 1]);
                }
            }
            r
        },
        List::Name(nm, tl) => {
            let (nm1, nm2) = name_fork(nm);
            let rest = map(f, *tl);
            let art = List::Art(Nart { loc: nm1, content: Box::new(rest) });
            assert(art@ == rest@);
            let r = List::Name(nm2, Box::new(art));
            assert forall|i: int| 0 <= i < r@.len() implies mapped(*f, #[trigger] s[i], r@[i]) by {
                if i > 0 {
                    assert(s[i] == s.skip(1)[i - 1]);
                }
            }
            r
        },
        _ => List::Nil,
    }
}

/// One contraction pass: each element is combined by `q` with the element
/// right after it when `p` holds of the two, and kept otherwise; a name
/// marker met between two elements moves ahead of the first. Every name
/// marker is renamed to its second fork.
pub open spec fn spec_contract<T>(
    p: spec_fn(T, T) -> bool,
    q: spec_fn(T, T) -> T,
    s: Seq<NameOrContent<T>>,
) -> Seq<NameOrContent<T>>
    decreases s.len(),
{
    if s.len() == 0 {
        Seq::empty()
    } else {
        match s[0] {
            NameOrContent::Name(n) => seq![NameOrContent::Name(spec_fork(n).1)] + spec_contract(
                p,
                q,
                s.skip(1),
            ),
            NameOrContent::Content(h1) => {
                let t = s.skip(1);
                if t.len() == 0 {
                    seq![NameOrContent::Content(h1)]
                } else {
                    match t[0] {
                        NameOrContent::Content(h2) => if p(h1, h2) {
                            seq![NameOrContent::Content(q(h1, h2))] + spec_contract(p, q, t.skip(1))
                        } else {
                            seq![NameOrContent::Content(h1)] + spec_contract(p, q, t)
                        },
                        NameOrContent::Name(n) => seq![NameOrContent::Name(spec_fork(n).1)]
                            + spec_contract(p, q, seq![NameOrContent::Content(h1)] + t.skip(1)),
                    }
                }
            },
        }
    }
}

/// One contraction pass over `list` (see `spec_contract`): adjacent
/// elements on which `f` holds are combined with `g`. After each renamed
/// name marker, the rest sits in an articulation under the first fork.
pub fn contract<T, F: Fn(&T, &T) -> bool, G: Fn(T, T) -> T>(f: &F, g: &G, list: List<T>) -> (r: List<T>)
    requires
        rel_ok(*f),
        op_ok(*g),
    ensures
        r == spec_contract_list(rel_fn(*f), op_fn(*g), list),
        r@ == spec_contract(rel_fn(*f), op_fn(*g), list@),
{
    proof {
        lemma_rel_fn(*f);
        lemma_op_fn(*g);
    }
    contract_by(f, g, list, Ghost(rel_fn(*f)), Ghost(op_fn(*g)))
}

fn contract_by<T, F: Fn(&T, &T) -> bool, G: Fn(T, T) -> T>(
    f: &F,
    g: &G,
    list: List<T>,
    Ghost(p): Ghost<spec_fn(T, T) -> bool>,
    Ghost(q): Ghost<spec_fn(T, T) -> T>,
) -> (r: List<T>)
    requires
        computes_rel(*f, p),
        computes_op(*g, q),
    ensures
        r == spec_contract_list(p, q, list),
        r@ == spec_contract(p, q, list@),
    decreases list@.len(),
{
    let ghost s = list@;
    match list.elim() {
        List::Nil => List::Nil,
        List::Name(nm, tl) => {
            assert(s.skip(1) =~= tl@);
            let (nm1, nm2) = name_fork(nm);
            let rest = contract_by(f, g, *tl, Ghost(p), Ghost(q));
            let art = List::Art(Nart { loc: nm1, content: Box::new(rest) });
            assert(art@ == rest@);
            List::Name(nm2, Box::new(art))
        },
        List::Cons(hd1, rest) => {
            let ghost t = rest@;
            assert(s.skip(1) =~= t);
            match rest.elim() {
                List::Cons(hd2, tl) => {
                    assert(t.skip(1) =~= tl@);
                    let b = f(&hd1, &hd2);
                    assert(p(hd1, hd2) == b);
                    if b {
                        let c = g(hd1, hd2);
                        assert(q(hd1, hd2) == c);
                        let rest = contract_by(f, g, *tl, Ghost(p), Ghost(q));
                        List::Cons(c, Box::new(rest))
                    } else {
                        let l2 = List::Cons(hd2, tl);
                        assert(l2@ == t);
                        let rest = contract_by(f, g, l2, Ghost(p), Ghost(q));
                        List::Cons(hd1, Box::new(rest))
                    }
                },
                List::Name(nm, tl) => {
                    assert(t.skip(1) =~= tl@);
                    let (nm1, nm2) = name_fork(nm);
                    let l1 = List::Cons(hd1, tl);
                    assert(l1@ =~= seq![NameOrContent::Content(hd1)] + t.skip(1));
                    let rest = contract_by(f, g, l1, Ghost(p), Ghost(q));
                    let art = List::Art(Nart { loc: nm1, content: Box::new(rest) });
                    assert(art@ == rest@);
                    List::Name(nm2, Box::new(art))
                },
                _ => {
                    let nil = List::Nil;
                    assert(nil@ == Seq::<NameOrContent<T>>::empty());
                    let r = List::Cons(hd1, Box::new(nil));
                    assert(r@ =~= spec_contract(p, q, s));
                    r
                },
            }
        },
        _ => {
            proof {
                assert(false);
            }
            List::Nil
        },
    }
}

proof fn lemma_elements_cons<T>(i: NameOrContent<T>, s: Seq<NameOrContent<T>>)
    ensures
        elements(seq![i] + s) == match i {
            NameOrContent::Content(x) => seq![x] + elements(s),
            NameOrContent::Name(_) => elements(s),
        },
        elements(seq![i] + s).len() == elements(s).len() + if i is Content {
            1int
        } else {
            0int
        },
{
    assert((seq![i] + s).skip(1) =~= s);
}

/// A contraction pass never adds elements.
pub proof fn lemma_contract_elements<T>(
    p: spec_fn(T, T) -> bool,
    q: spec_fn(T, T) -> T,
    s: Seq<NameOrContent<T>>,
)
    ensures
        elements(spec_contract(p, q, s)).len() <= elements(s).len(),
    decreases s.len(),
{
    if s.len() == 0 {
        return;
    }
    assert(s =~= seq![s[0]] + s.skip(1));
    lemma_elements_cons(s[0], s.skip(1));
    match s[0] {
        NameOrContent::Name(n) => {
            lemma_contract_elements(p, q, s.skip(1));
            lemma_elements_cons(NameOrContent::Name(spec_fork(n).1), spec_contract(p, q, s.skip(1)));
        },
        NameOrContent::Content(h1) => {
            let t = s.skip(1);
            if t.len() == 0 {
                lemma_elements_cons(NameOrContent::Content(h1), t);
                assert(seq![NameOrContent::Content(h1)] + t =~= seq![NameOrContent::Content(h1)]);
                return;
            }
            assert(t =~= seq![t[0]] + t.skip(1));
            lemma_elements_cons(t[0], t.skip(1));
            match t[0] {
                NameOrContent::Content(h2) => {
                    if p(h1, h2) {
                        lemma_contract_elements(p, q, t.skip(1));
                        lemma_elements_cons(
                            NameOrContent::Content(q(h1, h2)),
                            spec_contract(p, q, t.skip(1)),
                        );
                    } else {
                        lemma_contract_elements(p, q, t);
                        lemma_elements_cons(NameOrContent::Content(h1), spec_contract(p, q, t));
                    }
                },
                NameOrContent::Name(n) => {
                    let u = seq![NameOrContent::Content(h1)] + t.skip(1);
                    lemma_contract_elements(p, q, u);
                    lemma_elements_cons(NameOrContent::Content(h1), t.skip(1));
                    lemma_elements_cons(NameOrContent::Name(spec_fork(n).1), spec_contract(p, q, u));
                },
            }
        },
    }
}

/// Reduction by repeated contraction: `None` for a list without elements;
/// the element of a one-element list; otherwise the first two elements are
/// combined by `q`, the result contracted, and the reduction goes on. Name
/// markers are passed over.
pub open spec fn spec_reduce<T>(
    p: spec_fn(T, T) -> bool,
    q: spec_fn(T, T) -> T,
    s: Seq<NameOrContent<T>>,
) -> Option<T>
    decreases elements(s).len(), s.len(),
{
    if s.len() == 0 {
        None
    } else {
        match s[0] {
            NameOrContent::Name(_) => spec_reduce(p, q, s.skip(1)),
            NameOrContent::Content(h1) => {
                let t = s.skip(1);
                if t.len() == 0 {
                    Some(h1)
                } else {
                    match t[0] {
                        NameOrContent::Name(_) => {
                            let u = seq![NameOrContent::Content(h1)] + t.skip(1);
                            if elements(u).len() <= elements(s).len() {
                                spec_reduce(p, q, u)
                            } else {
                                None
                            }
                        },
                        NameOrContent::Content(h2) => {
                            let c = spec_contract(
                                p,
                                q,
                                seq![NameOrContent::Content(q(h1, h2))] + t.skip(1),
                            );
                            if elements(c).len() < elements(s).len() {
                                spec_reduce(p, q, c)
                            } else {
                                None
                            }
                        },
                    }
                }
            },
        }
    }
}

/// Reduces a list by repeated contraction (see `spec_reduce`): `None` when
/// it has no element. Name markers and articulations are passed over.
pub fn reduce<T, F: Fn(&T, &T) -> bool, G: Fn(T, T) -> T>(f: &F, g: &G, list: List<T>) -> (r: Option<T>)
    requires
        rel_ok(*f),
        op_ok(*g),
    ensures
        r == spec_reduce(rel_fn(*f), op_fn(*g), list@),
        r is None <==> elements(list@).len() == 0,
{
    proof {
        lemma_rel_fn(*f);
        lemma_op_fn(*g);
    }
    reduce_by(f, g, list, Ghost(rel_fn(*f)), Ghost(op_fn(*g)))
}

fn reduce_by<T, F: Fn(&T, &T) -> bool, G: Fn(T, T) -> T>(
    f: &F,
    g: &G,
    list: List<T>,
    Ghost(p): Ghost<spec_fn(T, T) -> bool>,
    Ghost(q): Ghost<spec_fn(T, T) -> T>,
) -> (r: Option<T>)
    requires
        computes_rel(*f, p),
        computes_op(*g, q),
    ensures
        r == spec_reduce(p, q, list@),
        r is None <==> elements(list@).len() == 0,
    decreases elements(list@).len(), list@.len(),
{
    let ghost s = list@;
    proof {
        lemma_reduce_none(p, q, s);
    }
    match list.elim() {
        List::Name(_, tl) => {
            assert(s.skip(1) =~= tl@);
            reduce_by(f, g, *tl, Ghost(p), Ghost(q))
        },
        List::Cons(hd, rest) => {
            let ghost t = rest@;
            assert(s.skip(1) =~= t);
            assert(s =~= seq![s[0]] + t);
            proof {
                lemma_elements_cons(s[0], t);
            }
            match rest.elim() {
                List::Cons(hd2, tl) => {
                    assert(t.skip(1) =~= tl@);
                    assert(t =~= seq![t[0]] + tl@);
                    proof {
                        lemma_elements_cons(t[0], tl@);
                    }
                    let hd3 = g(hd, hd2);
                    assert(q(hd, hd2) == hd3);
                    let l3 = List::Cons(hd3, tl);
                    let ghost u = l3@;
                    assert(u =~= seq![NameOrContent::Content(hd3)] + tl@);
                    proof {
                        lemma_elements_cons(NameOrContent::Content(hd3), tl@);
                        lemma_contract_elements(p, q, u);
                    }
                    let c = contract_by(f, g, l3, Ghost(p), Ghost(q));
                    reduce_by(f, g, c, Ghost(p), Ghost(q))
                },
                List::Name(_, tl) => {
                    assert(t.skip(1) =~= tl@);
                    assert(t =~= seq![t[0]] + tl@);
                    proof {
                        lemma_elements_cons(t[0], tl@);
                    }
                    let l2 = List::Cons(hd, tl);
                    assert(l2@ =~= seq![NameOrContent::Content(hd)] + t.skip(1));
                    proof {
                        lemma_elements_cons(NameOrContent::Content(hd), tl@);
                    }
                    reduce_by(f, g, l2, Ghost(p), Ghost(q))
                },
                _ => Some(hd),
            }
        },
        _ => None,
    }
}

/// Reduction gives a result exactly when there is an element.
pub proof fn lemma_reduce_none<T>(p: spec_fn(T, T) -> bool, q: spec_fn(T, T) -> T, s: Seq<NameOrContent<T>>)
    ensures
        spec_reduce(p, q, s) is None <==> elements(s).len() == 0,
    decreases elements(s).len(), s.len(),
{
    if s.len() == 0 {
        return;
    }
    assert(s =~= seq![s[0]] + s.skip(1));
    lemma_elements_cons(s[0], s.skip(1));
    match s[0] {
        NameOrContent::Name(_) => {
            lemma_reduce_none(p, q, s.skip(1));
        },
        NameOrContent::Content(h1) => {
            let t = s.skip(1);
            if t.len() == 0 {
                return;
            }
            assert(t =~= seq![t[0]] + t.skip(1));
            lemma_elements_cons(t[0], t.skip(1));
            match t[0] {
                NameOrContent::Name(_) => {
                    let u = seq![NameOrContent::Content(h1)] + t.skip(1);
                    lemma_elements_cons(NameOrContent::Content(h1), t.skip(1));
                    lemma_reduce_none(p, q, u);
                },
                NameOrContent::Content(h2) => {
                    let u = seq![NameOrContent::Content(q(h1, h2))] + t.skip(1);
                    lemma_elements_cons(NameOrContent::Content(q(h1, h2)), t.skip(1));
                    lemma_contract_elements(p, q, u);
                    lemma_contract_keeps_some(p, q, u);
                    let c = spec_contract(p, q, u);
                    lemma_reduce_none(p, q, c);
                },
            }
        },
    }
}

/// A contraction pass of a sequence with an element keeps one.
pub proof fn lemma_contract_keeps_some<T>(
    p: spec_fn(T, T) -> bool,
    q: spec_fn(T, T) -> T,
    s: Seq<NameOrContent<T>>,
)
    ensures
        elements(s).len() > 0 ==> elements(spec_contract(p, q, s)).len() > 0,
    decreases s.len(),
{
    if s.len() == 0 {
        return;
    }
    assert(s =~= seq![s[0]] + s.skip(1));
    lemma_elements_cons(s[0], s.skip(1));
    match s[0] {
        NameOrContent::Name(n) => {
            lemma_contract_keeps_some(p, q, s.skip(1));
            lemma_elements_cons(NameOrContent::Name(spec_fork(n).1), spec_contract(p, q, s.skip(1)));
        },
        NameOrContent::Content(h1) => {
            let t = s.skip(1);
            if t.len() == 0 {
                lemma_elements_cons(NameOrContent::Content(h1), t);
                assert(seq![NameOrContent::Content(h1)] + t =~= seq![NameOrContent::Content(h1)]);
                return;
            }
            match t[0] {
                NameOrContent::Content(h2) => {
                    if p(h1, h2) {
                        lemma_elements_cons(
                            NameOrContent::Content(q(h1, h2)),
                            spec_contract(p, q, t.skip(1)),
                        );
                    } else {
                        lemma_elements_cons(NameOrContent::Content(h1), spec_contract(p, q, t));
                    }
                },
                NameOrContent::Name(n) => {
                    let u = seq![NameOrContent::Content(h1)] + t.skip(1);
                    lemma_elements_cons(NameOrContent::Content(h1), t.skip(1));
                    lemma_contract_keeps_some(p, q, u);
                    lemma_elements_cons(NameOrContent::Name(spec_fork(n).1), spec_contract(p, q, u));
                },
            }
        },
    }
}

/// The list that `elim` exposes: leading articulations forced.
pub open spec fn spec_head<T>(l: List<T>) -> List<T>
    decreases l,
{
    match l {
        List::Art(a) => spec_head(*a.content),
        _ => l,
    }
}

pub proof fn lemma_head<T>(l: List<T>)
    ensures
        items(spec_head(l)) == items(l),
        !(spec_head(l) is Art),
    decreases l,
{
    if let List::Art(a) = l {
        lemma_head(*a.content);
    }
}

/// The merge of two lists by the order `o`, deciding on the nodes as given:
/// when the first list is `Nil` the result is the second, and when the
/// second is `Nil` it is the first. Two elements: the one for which
/// `o(h1, h2)` holds is taken from the first list, the other from the
/// second. Otherwise a name marker at the front of the first list, then of
/// the second, is renamed to its second fork and followed by an
/// articulation, under its first fork, of the rest of the merge; failing
/// that, an articulation on the first list, then on the second, is forced.
pub open spec fn spec_merge<T>(o: spec_fn(T, T) -> bool, l1: List<T>, l2: List<T>) -> List<T>
    decreases l1, l2,
{
    if l1 is Nil {
        l2
    } else if l2 is Nil {
        l1
    } else {
        match (l1, l2) {
            (List::Cons(a, t1), List::Cons(b, t2)) => if o(a, b) {
                List::Cons(a, Box::new(spec_merge(o, *t1, l2)))
            } else {
                List::Cons(b, Box::new(spec_merge(o, l1, *t2)))
            },
            (List::Name(n, t1), _) => List::Name(
                spec_fork(n).1,
                Box::new(List::Art(Nart { loc: spec_fork(n).0, content: Box::new(spec_merge(o, *t1, l2)) })),
            ),
            (_, List::Name(n, t2)) => List::Name(
                spec_fork(n).1,
                Box::new(List::Art(Nart { loc: spec_fork(n).0, content: Box::new(spec_merge(o, l1, *t2)) })),
            ),
            (List::Art(a), _) => spec_merge(o, *a.content, l2),
            (_, List::Art(a)) => spec_merge(o, l1, *a.content),
            _ => List::Nil,
        }
    }
}

fn merge_by<T, O: Fn(&T, &T) -> bool>(ord: &O, list1: List<T>, list2: List<T>, Ghost(o): Ghost<
    spec_fn(T, T) -> bool,
>) -> (r: List<T>)
    requires
        computes_rel(*ord, o),
    ensures
        r == spec_merge(o, list1, list2),
    decreases list1, list2,
{
    if let List::Nil = list1 {
        return list2;
    }
    if let List::Nil = list2 {
        return list1;
    }
    match list1 {
        List::Cons(a, t1) => match list2 {
            List::Cons(b, t2) => {
                if ord(&a, &b) {
                    let rest = merge_by(ord, *t1, List::Cons(b, t2), Ghost(o));
                    List::Cons(a, Box::new(rest))
                } else {
                    let rest = merge_by(ord, List::Cons(a, t1), *t2, Ghost(o));
                    List::Cons(b, Box::new(rest))
                }
            },
            List::Name(n, t2) => {
                let (n1, n2) = name_fork(n);
                let rest = merge_by(ord, List::Cons(a, t1), *t2, Ghost(o));
                List::Name(n2, Box::new(List::Art(Nart { loc: n1, content: Box::new(rest) })))
            },
            List::Art(x) => merge_by(ord, List::Cons(a, t1), *x.content, Ghost(o)),
            List::Nil => List::Nil,
        },
        List::Name(n, t1) => {
            let (n1, n2) = name_fork(n);
            let rest = merge_by(ord, *t1, list2, Ghost(o));
            List::Name(n2, Box::new(List::Art(Nart { loc: n1, content: Box::new(rest) })))
        },
        List::Art(x) => match list2 {
            List::Name(n, t2) => {
                let (n1, n2) = name_fork(n);
                let rest = merge_by(ord, List::Art(x), *t2, Ghost(o));
                List::Name(n2, Box::new(List::Art(Nart { loc: n1, content: Box::new(rest) })))
            },
            _ => merge_by(ord, *x.content, list2, Ghost(o)),
        },
        List::Nil => list2,
    }
}

/// Merges two lists by `ord` (see `spec_merge`).
pub fn merge<T, O: Fn(&T, &T) -> bool>(ord: &O, list1: List<T>, list2: List<T>) -> (r: List<T>)
    requires
        rel_ok(*ord),
    ensures
        r == spec_merge(rel_fn(*ord), list1, list2),
{
    proof {
        lemma_rel_fn(*ord);
    }
    merge_by(ord, list1, list2, Ghost(rel_fn(*ord)))
}

/// The one-element list of `x`, fronted by the pending name if there is one.
pub open spec fn spec_singleton<T>(nameop: Option<Name>, x: T) -> List<T> {
    match nameop {
        None => List::Cons(x, Box::new(List::Nil)),
        Some(nm) => List::Name(nm, Box::new(List::Cons(x, Box::new(List::Nil)))),
    }
}

/// The items of `singletons(nameop, l)`: each element becomes its
/// one-element list, the first one fronted by `nameop`. A name marker `n`
/// becomes its first fork, and the second fork of its second fork is
/// pending for the next element.
pub open spec fn spec_singletons<T>(nameop: Option<Name>, s: Seq<NameOrContent<T>>) -> Seq<
    NameOrContent<List<T>>,
>
    decreases s.len(),
{
    if s.len() == 0 {
        Seq::empty()
    } else {
        match s[0] {
            NameOrContent::Content(x) => seq![NameOrContent::Content(spec_singleton(nameop, x))]
                + spec_singletons(None, s.skip(1)),
            NameOrContent::Name(n) => seq![NameOrContent::Name(spec_fork(n).0)] + spec_singletons(
                Some(spec_fork(spec_fork(n).1).1),
                s.skip(1),
            ),
        }
    }
}

/// The list of one-element lists of `list`'s elements (see
/// `spec_singletons`); after each name marker the rest sits in an
/// articulation under the first fork of the marker's second fork.
pub fn singletons<T>(nameop: Option<Name>, list: List<T>) -> (r: List<List<T>>)
    ensures
        r == spec_singletons_list(nameop, list),
        r@ == spec_singletons(nameop, list@),
    decreases list@.len(),
{
    let ghost s = list@;
    match list.elim() {
        List::Cons(hd, tl) => {
            assert(s.skip(1) =~= tl@);
            let one = match nameop {
                None => List::Cons(hd, Box::new(List::Nil)),
                Some(nm) => List::Name(nm, Box::new(List::Cons(hd, Box::new(List::Nil)))),
            };
            let rest = singletons(None, *tl);
            List::Cons(one, Box::new(rest))
        },
        List::Name(nm, tl) => {
            assert(s.skip(1) =~= tl@);
            let (nm1, nm) = name_fork(nm);
            let (nm2, nm3) = name_fork(nm);
            let rest = singletons(Some(nm3), *tl);
            let art = List::Art(Nart { loc: nm2, content: Box::new(rest) });
            assert(art@ == rest@);
            List::Name(nm1, Box::new(art))
        },
        _ => List::Nil,
    }
}

/// The words that a list of numbers is hashed as: per element a 0 and the
/// element; per name marker a 1, the name's word count and its words.
pub open spec fn list_words(s: Seq<NameOrContent<u64>>) -> Seq<u64>
    decreases s.len(),
{
    if s.len() == 0 {
        Seq::empty()
    } else {
        match s[0] {
            NameOrContent::Content(x) => seq![0u64, x] + list_words(s.skip(1)),
            NameOrContent::Name(n) => seq![1u64, name_words(n).len() as u64] + name_words(n)
                + list_words(s.skip(1)),
        }
    }
}

/// The seed that list hashing uses, apart from the one for levels.
pub const LIST_SEED: u64 = 0;

/// `a` hashes below `b`.
pub open spec fn hash_less(a: List<u64>, b: List<u64>) -> bool {
    hash_seeded(LIST_SEED, list_words(a@)) < hash_seeded(LIST_SEED, list_words(b@))
}

fn push_list_words(l: &List<u64>, out: &mut Vec<u64>)
    ensures
        final(out)@ == old(out)@ + list_words(l@),
    decreases *l,
{
    match l {
        List::Nil => {
            assert(final(out)@ =~= old(out)@ + list_words(l@));
        },
        List::Cons(x, tl) => {
            assert(l@.skip(1) =~= tl@);
            out.push(0);
            out.push(*x);
            push_list_words(tl, out);
            assert(final(out)@ =~= old(out)@ + list_words(l@));
        },
        List::Name(n, tl) => {
            assert(l@.skip(1) =~= tl@);
            let mut w: Vec<u64> = Vec::new();
            push_name_words(n, &mut w);
            assert(w@ =~= name_words(*n));
            out.push(1);
            out.push(w.len() as u64);
            let mut i: usize = 0;
            let ghost start = out@;
            while i < w.len()
                invariant
                    i <= w@.len(),
                    out@ == start + w@.subrange(0, i as int),
                decreases w@.len() - i,
            {
                out.push(w[i]);
                i = i + 1;
                assert(out@ =~= start + w@.subrange(0, i as int));
            }
            assert(w@.subrange(0, w@.len() as int) =~= w@);
            push_list_words(tl, out);
            assert(final(out)@ =~= old(out)@ + list_words(l@));
        },
        List::Art(a) => push_list_words(&*a.content, out),
    }
}

/// The hash of a list of numbers, for pairing lists in `mergesort`.
pub fn list_hash(l: &List<u64>) -> (r: u64)
    ensures
        r == hash_seeded(LIST_SEED, list_words(l@)),
{
    let mut w: Vec<u64> = Vec::new();
    push_list_words(l, &mut w);
    assert(w@ =~= list_words(l@));
    hash_words(LIST_SEED, &w)
}

/// `rel_ok` of the relation that `ord` refers to.
pub open spec fn order_ok<O: Fn(&u64, &u64) -> bool>(ord: &O) -> bool {
    rel_ok(*ord)
}

/// `rel_fn` of the relation that `ord` refers to.
pub open spec fn order_fn<O: Fn(&u64, &u64) -> bool>(ord: &O) -> spec_fn(u64, u64) -> bool {
    rel_fn(*ord)
}

/// Sorts a list by `ord`: its one-element lists are reduced by `merge`,
/// with neighbours merged first where the left one hashes below the right.
pub fn mergesort<O: Fn(&u64, &u64) -> bool>(ord: &O, list: List<u64>) -> (r: List<u64>)
    requires
        rel_ok(*ord),
    ensures
        r == match spec_reduce(
            |a: List<u64>, b: List<u64>| hash_less(a, b),
            |a: List<u64>, b: List<u64>| spec_merge(rel_fn(*ord), a, b),
            spec_singletons(None, list@),
        ) {
            None => List::Nil,
            Some(l) => l,
        },
{
    let c = |l1: &List<u64>, l2: &List<u64>| -> (b: bool)
        ensures
            b == hash_less(*l1, *l2),
        { list_hash(l1) < list_hash(l2) };
    let m = |l1: List<u64>, l2: List<u64>| -> (l: List<u64>)
        requires
            order_ok(ord),
        ensures
            l == spec_merge(order_fn(ord), l1, l2),
        { merge(ord, l1, l2) };
    let ones = singletons(None, list);
    match reduce_by(
        &c,
        &m,
        ones,
        Ghost(|a: List<u64>, b: List<u64>| hash_less(a, b)),
        Ghost(|a: List<u64>, b: List<u64>| spec_merge(rel_fn(*ord), a, b)),
    ) {
        None => List::Nil,
        Some(l) => l,
    }
}

/// A walk over the elements of a list, by reference.
pub struct ListItems<'x, T> {
    list: &'x List<T>,
}

impl<'x, T> ListItems<'x, T> {
    /// The elements not yet visited.
    pub closed spec fn remaining(&self) -> Seq<T> {
        elements(self.list@)
    }

    /// The next element, if any; name markers are passed over and
    /// articulations read through.
    pub fn next(&mut self) -> (r: Option<&'x T>)
        ensures
            r is None ==> old(self).remaining().len() == 0 && final(self).remaining().len() == 0,
            r is Some ==> old(self).remaining() == seq![*r->Some_0] + final(self).remaining(),
    {
        let (r, rest) = first_element(self.list);
        self.list = rest;
        r
    }
}

fn first_element<'x, T>(l: &'x List<T>) -> (r: (Option<&'x T>, &'x List<T>))
    ensures
        r.0 is None ==> elements(l@).len() == 0 && elements(r.1@).len() == 0,
        r.0 is Some ==> elements(l@) == seq![*r.0->Some_0] + elements(r.1@),
    decreases *l,
{
    match l {
        List::Nil => (None, l),
        List::Cons(hd, tl) => {
            assert(l@ =~= seq![NameOrContent::Content(*hd)] + tl@);
            proof {
                lemma_elements_cons(NameOrContent::Content(*hd), tl@);
            }
            (Some(hd), &**tl)
        },
        List::Name(n, tl) => {
            assert(l@ =~= seq![NameOrContent::Name(*n)] + tl@);
            proof {
                lemma_elements_cons(NameOrContent::Name(*n), tl@);
            }
            first_element(&**tl)
        },
        List::Art(a) => first_element(&*a.content),
    }
}

impl<T> List<T> {
    /// A walk over the list's elements.
    pub fn iter(&self) -> (r: ListItems<'_, T>)
        ensures
            r.remaining() == elements(self@),
    {
        ListItems { list: self }
    }
}

} // verus!
