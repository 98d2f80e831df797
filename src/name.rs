//! Names, the seeded hash, and the levels derived from it.
//!
//! Names here are plain values built by `symbol`, `of_str` and forking; no
//! runtime issues them, and they key no memo table (see `art`).
use vstd::prelude::*;
use std::collections::hash_map::DefaultHasher;
use std::hash::Hasher;
use vstd::std_specs::hash::DefaultHasherAdditionalSpecFns;
use vstd::std_specs::bits::u32_trailing_zeros;
use vstd::std_specs::bits::axiom_u32_trailing_zeros;

verus! {

/// Bit width of the hash from which levels are read.
pub const LEV_BITS: u32 = 32;

/// The largest level.
pub const LEV_MAX: u32 = 0xffff_ffffu32;

/// The seed that level derivation hashes with, and nothing else.
pub const LEV_SEED: u64 = 1;

/// An identity for memoization: a symbol, or a child forked off another name.
/// Names are compared for equality and hashed, never ordered.
#[derive(Debug, PartialEq, Eq, Hash)]
pub enum Name {
    Sym(u64),
    Fork(Box<Name>, bool),
}

/// One position of a nominal sequence: an element or a name marker.
#[derive(Debug, Clone, PartialEq, Eq)]
pub enum NameOrContent<T> {
    Name(Name),
    Content(T),
}

impl Name {
    /// The name of a symbol.
    pub fn symbol(s: u64) -> (r: Name)
        ensures
            r == Name::Sym(s),
    {
        Name::Sym(s)
    }

    /// The name of a string: the symbol of the string's hash.
    pub fn of_str(s: &str) -> (r: Name)
        ensures
            r == Name::Sym(str_symbol(s@)),
    {
        let mut h = DefaultHasher::new();
        h.write(s.as_bytes());
        Name::Sym(h.finish())
    }

    /// A copy equal to `self`.
    pub fn duplicate(&self) -> (r: Name)
        ensures
            r == *self,
        decreases *self,
    {
        match self {
            Name::Sym(s) => Name::Sym(*s),
            Name::Fork(p, b) => Name::Fork(Box::new(p.duplicate()), *b),
        }
    }
}

impl Clone for Name {
    fn clone(&self) -> Self {
        self.duplicate()
    }
}

/// The symbol of a string: std's default hasher fed its UTF-8 bytes.
pub open spec fn str_symbol(s: Seq<char>) -> u64 {
    DefaultHasher::spec_finish(seq![vstd::utf8::encode_utf8(s)])
}

/// The two children of a name.
pub open spec fn spec_fork(n: Name) -> (Name, Name) {
    (Name::Fork(Box::new(n), false), Name::Fork(Box::new(n), true))
}

/// The four grandchildren of a name: both children of each child.
pub open spec fn spec_fork4(n: Name) -> (Name, Name, Name, Name) {
    let (a, b) = spec_fork(n);
    (spec_fork(a).0, spec_fork(a).1, spec_fork(b).0, spec_fork(b).1)
}

/// Forks a name into two distinct children.
pub fn name_fork(n: Name) -> (r: (Name, Name))
    ensures
        r == spec_fork(n),
{
    let m = n.duplicate();
    (Name::Fork(Box::new(n), false), Name::Fork(Box::new(m), true))
}

/// Forks a name into four distinct names.
pub fn name_fork4(n: Name) -> (r: (Name, Name, Name, Name))
    ensures
        r == spec_fork4(n),
{
    let (a, b) = name_fork(n);
    let (a1, a2) = name_fork(a);
    let (b1, b2) = name_fork(b);
    (a1, a2, b1, b2)
}

/// Forking gives two names, distinct from each other and from the parent,
/// and the four names of a four-way fork are pairwise distinct.
pub proof fn lemma_fork_distinct(n: Name)
    ensures
        spec_fork(n).0 != spec_fork(n).1,
        spec_fork(n).0 != n,
        spec_fork(n).1 != n,
        ({
            let (a, b, c, d) = spec_fork4(n);
            a != b && a != c && a != d && b != c && b != d && c != d
        }),
{
    lemma_fork_not_self(n, false);
    lemma_fork_not_self(n, true);
}

proof fn lemma_fork_not_self(n: Name, b: bool)
    ensures
        Name::Fork(Box::new(n), b) != n,
    decreases n,
{
    if let Name::Fork(p, c) = n {
        lemma_fork_not_self(*p, c);
    }
}

/// The eight bytes of a word, least significant first.
pub open spec fn word_bytes(w: u64) -> Seq<u8> {
    Seq::new(8, |i: int| ((w >> (8 * i) as u64) & 0xffu64) as u8)
}

/// The words that a name is hashed as: its symbol, then one word per fork.
pub open spec fn name_words(n: Name) -> Seq<u64>
    decreases n,
{
    match n {
        Name::Sym(s) => seq![s],
        Name::Fork(p, b) => name_words(*p).push(if b { 1u64 } else { 0u64 }),
    }
}

/// The seeded hash of a sequence of words: std's default hasher fed the
/// seed's bytes, then each word's bytes, one write each.
pub open spec fn hash_seeded(seed: u64, words: Seq<u64>) -> u64 {
    DefaultHasher::spec_finish(seq![word_bytes(seed)] + words.map_values(|w: u64| word_bytes(w)))
}

fn bytes_of(w: u64) -> (r: Vec<u8>)
    ensures
        r@ == word_bytes(w),
{
    let mut v: Vec<u8> = Vec::new();
    let mut i: u64 = 0;
    while i < 8
        invariant
            i <= 8,
            v@.len() == i,
            forall|j: int| 0 <= j < i ==> v@[j] == ((w >> (8 * j) as u64) & 0xffu64) as u8,
        decreases 8 - i,
    {
        v.push(((w >> (8 * i)) & 0xffu64) as u8);
        i = i + 1;
    }
    assert(v@ =~= word_bytes(w));
    v
}

/// Hashes `words` under `seed` with std's default hasher.
pub fn hash_words(seed: u64, words: &Vec<u64>) -> (r: u64)
    ensures
        r == hash_seeded(seed, words@),
{
    let mut h = DefaultHasher::new();
    let sb = bytes_of(seed);
    h.write(sb.as_slice());
    let mut i: usize = 0;
    while i < words.len()
        invariant
            i <= words@.len(),
            h@ == seq![word_bytes(seed)] + words@.subrange(0, i as int).map_values(
                |w: u64| word_bytes(w),
            ),
        decreases words@.len() - i,
    {
        let b = bytes_of(words[i]);
        h.write(b.as_slice());
        assert(words@.subrange(0, i + 1) =~= words@.subrange(0, i as int).push(words@[i as int]));
        assert(words@.subrange(0, i + 1).map_values(|w: u64| word_bytes(w)) =~= words@.subrange(
            0,
            i as int,
        ).map_values(|w: u64| word_bytes(w)).push(word_bytes(words@[i as int])));
        i = i + 1;
    }
    assert(words@.subrange(0, words@.len() as int) =~= words@);
    h.finish()
}

/// Level of an element: the trailing zeros of the low `LEV_BITS` bits of its
/// seeded hash, so at most `LEV_BITS`.
pub open spec fn spec_lev(x: u64) -> u32 {
    u32_trailing_zeros(hash_seeded(LEV_SEED, seq![x]) as u32)
}

/// Level of a name: `LEV_BITS + 1` plus the trailing zeros of its hash, so
/// above every element level.
pub open spec fn spec_lev_name(n: Name) -> u32 {
    (LEV_BITS + 1 + u32_trailing_zeros(hash_seeded(LEV_SEED, name_words(n)) as u32)) as u32
}

pub proof fn lemma_lev_bounds(x: u64, n: Name)
    ensures
        spec_lev(x) <= LEV_BITS,
        LEV_BITS + 1 <= spec_lev_name(n) <= 2 * LEV_BITS + 1,
{
    axiom_u32_trailing_zeros(hash_seeded(LEV_SEED, seq![x]) as u32);
    axiom_u32_trailing_zeros(hash_seeded(LEV_SEED, name_words(n)) as u32);
}

/// The level of an element.
pub fn lev(x: u64) -> (r: u32)
    ensures
        r == spec_lev(x),
        r <= LEV_BITS,
{
    let v: Vec<u64> = vec![x];
    assert(v@ =~= seq![x]);
    let h = hash_words(LEV_SEED, &v);
    proof {
        axiom_u32_trailing_zeros(h as u32);
    }
    (h as u32).trailing_zeros()
}

pub(crate) fn push_name_words(n: &Name, out: &mut Vec<u64>)
    ensures
        final(out)@ == old(out)@ + name_words(*n),
    decreases *n,
{
    match n {
        Name::Sym(s) => {
            out.push(*s);
            assert(final(out)@ =~= old(out)@ + name_words(*n));
        },
        Name::Fork(p, b) => {
            push_name_words(p, out);
            out.push(if *b { 1u64 } else { 0u64 });
            assert(final(out)@ =~= old(out)@ + name_words(*n));
        },
    }
}

/// The level of a name.
pub fn lev_name(n: &Name) -> (r: u32)
    ensures
        r == spec_lev_name(*n),
        LEV_BITS + 1 <= r <= 2 * LEV_BITS + 1,
{
    let mut v: Vec<u64> = Vec::new();
    push_name_words(n, &mut v);
    assert(v@ =~= name_words(*n));
    let h = hash_words(LEV_SEED, &v);
    proof {
        axiom_u32_trailing_zeros(h as u32);
    }
    LEV_BITS + 1 + (h as u32).trailing_zeros()
}

} // verus!
