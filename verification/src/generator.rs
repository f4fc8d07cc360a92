//! The seven-bag piece generator: pieces are dealt from a stock that is
//! refilled, whenever it runs short, with all seven pieces in a random order.

use vstd::prelude::*;
use rand::seq::SliceRandom;
use crate::block::MinoType;

verus! {

broadcast use vstd::seq_lib::group_to_multiset_ensures;

/// The seven pieces, in the order of a fresh bag before it is shuffled.
pub open spec fn all_minos() -> Seq<MinoType> {
    seq![
        MinoType::MinoI,
        MinoType::MinoO,
        MinoType::MinoS,
        MinoType::MinoZ,
        MinoType::MinoJ,
        MinoType::MinoL,
        MinoType::MinoT,
    ]
}

/// A bag: the seven pieces in some order.
pub open spec fn is_bag(b: Seq<MinoType>) -> bool {
    b.to_multiset() == all_minos().to_multiset()
}

/// The `k`-th run of seven pieces of a sequence.
pub open spec fn bag_at(s: Seq<MinoType>, k: int) -> Seq<MinoType> {
    s.subrange(7 * k, 7 * k + 7)
}

/// A sequence made of whole bags, one after another.
pub open spec fn is_bags(s: Seq<MinoType>) -> bool {
    &&& s.len() % 7 == 0
    &&& forall|k: int| 0 <= k < s.len() / 7 ==> #[trigger] is_bag(bag_at(s, k))
}

/// A stock that deals its pieces in bags: what is left of the current bag,
/// with no piece twice, followed by whole bags.
pub open spec fn bag_aligned(s: Seq<MinoType>) -> bool {
    &&& s.take((s.len() % 7) as int).no_duplicates()
    &&& is_bags(s.skip((s.len() % 7) as int))
}

/// `new` is `old` followed by whole bags.
pub open spec fn extends_by_bags(old: Seq<MinoType>, new: Seq<MinoType>) -> bool {
    &&& old.len() <= new.len()
    &&& new.take(old.len() as int) == old
    &&& is_bags(new.skip(old.len() as int))
}

/// The number of pieces in a stock of `len` pieces once whole bags have been
/// added, as few as needed, to bring it to at least `min` pieces.
pub open spec fn topped_len(len: int, min: int) -> int
    decreases if len < min { min - len } else { 0 },
{
    if len >= min {
        len
    } else {
        topped_len(len + 7, min)
    }
}

/// The number of pieces in a stock of `len` pieces after `n` pieces are
/// dealt from it, each deal first topping it up to at least `min` pieces.
pub open spec fn len_after_deals(len: int, min: int, n: nat) -> int
    decreases n,
{
    if n == 0 {
        len
    } else {
        len_after_deals(topped_len(len, min) - 1, min, (n - 1) as nat)
    }
}

/// A length reached from `len` by whole bags, at least `min`, unchanged when
/// `len` already was, and short of `min + 7` otherwise, is `topped_len`.
pub proof fn lemma_topped_len(len: int, min: int, l: int)
    requires
        l >= len,
        (l - len) % 7 == 0,
        l >= min,
        len >= min ==> l == len,
        len < min ==> l < min + 7,
    ensures
        l == topped_len(len, min),
    decreases if len < min { min - len } else { 0 },
{
    if len < min {
        assert(l - len >= 7);
        if len + 7 >= min {
            assert(l - (len + 7) < 7);
            assert(l - (len + 7) > -7);
            assert((l - (len + 7)) % 7 == 0);
        }
        lemma_topped_len(len + 7, min, l);
    }
}

/// Dealing `n1` pieces and then `n2` more is dealing `n1 + n2` pieces.
pub proof fn lemma_len_after_deals_add(len: int, min: int, n1: nat, n2: nat)
    ensures
        len_after_deals(len_after_deals(len, min, n1), min, n2) == len_after_deals(len, min, n1 + n2),
    decreases n1,
{
    if n1 > 0 {
        lemma_len_after_deals_add(topped_len(len, min) - 1, min, (n1 - 1) as nat, n2);
        assert((n1 + n2 - 1) as nat == ((n1 - 1) as nat + n2) as nat);
    }
}

/// A bag holds each of the seven pieces exactly once.
pub proof fn lemma_bag_facts(b: Seq<MinoType>)
    requires
        is_bag(b),
    ensures
        b.len() == 7,
        b.no_duplicates(),
        forall|t: MinoType| b.contains(t),
{
    broadcast use vstd::multiset::group_multiset_axioms;

    let a = all_minos();
    assert(a.no_duplicates());
    a.lemma_multiset_has_no_duplicates();
    assert forall|t: MinoType| b.contains(t) by {
        assert(a.contains(t)) by {
            match t {
                MinoType::MinoI => assert(a[0] == t),
                MinoType::MinoO => assert(a[1] == t),
                MinoType::MinoS => assert(a[2] == t),
                MinoType::MinoZ => assert(a[3] == t),
                MinoType::MinoJ => assert(a[4] == t),
                MinoType::MinoL => assert(a[5] == t),
                MinoType::MinoT => assert(a[6] == t),
            }
        }
        assert(a.to_multiset().count(t) > 0);
    }
    assert forall|x: MinoType| b.to_multiset().contains(x) implies b.to_multiset().count(x) == 1 by {
        assert(a.to_multiset().contains(x));
    }
    b.lemma_multiset_has_no_duplicates_conv();
    assert(b.len() == b.to_multiset().len());
    assert(a.len() == a.to_multiset().len());
}

/// Whole bags followed by whole bags are whole bags.
pub proof fn lemma_bags_concat(a: Seq<MinoType>, b: Seq<MinoType>)
    requires
        is_bags(a),
        is_bags(b),
    ensures
        is_bags(a + b),
{
    let s = a + b;
    let n = a.len() / 7;
    assert forall|k: int| 0 <= k < s.len() / 7 implies #[trigger] is_bag(bag_at(s, k)) by {
        if k < n {
            assert(bag_at(s, k) =~= bag_at(a, k));
        } else {
            assert(bag_at(s, k) =~= bag_at(b, k - n));
            assert(is_bag(bag_at(b, k - n)));
        }
    }
}

/// Appending whole bags to a stock that deals in bags keeps it so.
pub proof fn lemma_aligned_append(s: Seq<MinoType>, b: Seq<MinoType>)
    requires
        bag_aligned(s),
        is_bags(b),
    ensures
        bag_aligned(s + b),
{
    let m = (s.len() % 7) as int;
    assert((s + b).len() % 7 == m);
    assert((s + b).take(m) =~= s.take(m));
    assert((s + b).skip(m) =~= s.skip(m) + b);
    lemma_bags_concat(s.skip(m), b);
}

/// Dealing the first piece of a nonempty stock that deals in bags keeps it so.
pub proof fn lemma_aligned_drop_first(s: Seq<MinoType>)
    requires
        bag_aligned(s),
        s.len() > 0,
    ensures
        bag_aligned(s.drop_first()),
{
    let m = (s.len() % 7) as int;
    let t = s.drop_first();
    if m > 0 {
        assert(t.len() % 7 == m - 1);
        assert(t.take(m - 1) =~= s.take(m).drop_first());
        assert(t.skip(m - 1) =~= s.skip(m));
    } else {
        let r = s.skip(0);
        assert(r =~= s);
        assert(is_bag(bag_at(r, 0)));
        lemma_bag_facts(bag_at(r, 0));
        assert(t.len() % 7 == 6);
        assert(t.take(6int) =~= bag_at(s, 0).drop_first());
        let rest = t.skip(6int);
        assert(rest =~= s.skip(7));
        assert forall|k: int| 0 <= k < rest.len() / 7 implies #[trigger] is_bag(bag_at(rest, k)) by {
            assert(bag_at(rest, k) =~= bag_at(s, k + 1));
            assert(is_bag(bag_at(r, k + 1)));
        }
    }
}

/// Shuffles the pieces in place with `rand`'s `SliceRandom::shuffle`, drawing
/// on the thread-local random generator. The contract states only that the
/// result is a rearrangement of the same pieces; which order comes out is
/// left to chance and is not stated.
#[verifier::external_body]
fn shuffle_minos(minos: &mut Vec<MinoType>)
    ensures
        final(minos)@.to_multiset() == old(minos)@.to_multiset(),
{
    minos.shuffle(&mut rand::thread_rng());
}

/// The seven pieces in the order of a fresh bag.
fn mino_array() -> (v: Vec<MinoType>)
    ensures
        v@ == all_minos(),
{
    vec![
        MinoType::MinoI,
        MinoType::MinoO,
        MinoType::MinoS,
        MinoType::MinoZ,
        MinoType::MinoJ,
        MinoType::MinoL,
        MinoType::MinoT,
    ]
}

/// The piece generator: the pieces still to be dealt, in order, and the number
/// of pieces it keeps in stock before dealing one.
#[derive(PartialEq, Eq, Hash, Clone, Debug)]
pub struct RandomGenerator {
    pub stock: Vec<MinoType>,
    pub min_items: usize,
}

impl Default for RandomGenerator {
    fn default() -> (g: Self)
        ensures
            g.stock@ == Seq::<MinoType>::empty(),
            g.min_items == 20,
    {
        RandomGenerator { stock: Vec::new(), min_items: 20 }
    }
}

impl RandomGenerator {
    /// The number of pieces in stock.
    pub fn get_size_generated(&self) -> (n: usize)
        ensures
            n == self.stock@.len(),
    {
        self.stock.len()
    }

    /// Adds shuffled bags to the stock until it holds at least `min_size`
    /// pieces: none if it already does, else as few as reach that size.
    pub fn generate(&mut self, min_size: usize)
        ensures
            final(self).min_items == old(self).min_items,
            extends_by_bags(old(self).stock@, final(self).stock@),
            final(self).stock@.len() >= min_size,
            old(self).stock@.len() >= min_size ==> final(self).stock@ == old(self).stock@,
            old(self).stock@.len() < min_size ==> final(self).stock@.len() < min_size + 7,
            bag_aligned(old(self).stock@) ==> bag_aligned(final(self).stock@),
    {
        let ghost s0 = self.stock@;
        assert(s0.take(s0.len() as int) =~= s0);
        assert(s0.skip(s0.len() as int) =~= Seq::<MinoType>::empty());
        while self.stock.len() < min_size
            invariant
                self.min_items == old(self).min_items,
                s0 == old(self).stock@,
                extends_by_bags(s0, self.stock@),
                self.stock@.len() == s0.len() || self.stock@.len() < min_size + 7,
                bag_aligned(s0) ==> bag_aligned(self.stock@),
            decreases (if self.stock@.len() < min_size {
                min_size - self.stock@.len()
            } else {
                0
            }),
        {
            let mut bag = mino_array();
            shuffle_minos(&mut bag);
            let ghost before = self.stock@;
            let ghost b = bag@;
            assert(b.len() == b.to_multiset().len());
            assert(all_minos().len() == all_minos().to_multiset().len());
            assert(b.len() == 7);
            assert(is_bags(b)) by {
                assert(bag_at(b, 0) =~= b);
            }
            self.stock.append(&mut bag);
            proof {
                lemma_bags_concat(before.skip(s0.len() as int), b);
                assert(self.stock@.skip(s0.len() as int) =~= before.skip(s0.len() as int) + b);
                assert(self.stock@.take(s0.len() as int) =~= before.take(s0.len() as int));
                if bag_aligned(s0) {
                    lemma_aligned_append(before, b);
                }
            }
        }
    }

    /// Tops the stock up to `size` pieces as `generate` does, then gives the
    /// first `size` pieces without dealing them.
    pub fn get_items(&mut self, size: usize) -> (v: Vec<MinoType>)
        ensures
            final(self).min_items == old(self).min_items,
            extends_by_bags(old(self).stock@, final(self).stock@),
            final(self).stock@.len() >= size,
            old(self).stock@.len() >= size ==> final(self).stock@ == old(self).stock@,
            old(self).stock@.len() < size ==> final(self).stock@.len() < size + 7,
            bag_aligned(old(self).stock@) ==> bag_aligned(final(self).stock@),
            v@ == final(self).stock@.take(size as int),
    {
        self.generate(size);
        let mut v: Vec<MinoType> = Vec::new();
        for i in 0..size
            invariant
                self.stock@.len() >= size,
                v@ == self.stock@.take(i as int),
        {
            v.push(self.stock[i]);
            assert(v@ =~= self.stock@.take(i + 1));
        }
        v
    }

    /// Deals the next piece: tops the stock up to `min_items` pieces as
    /// `generate` does, then removes and gives its first piece.
    pub fn next(&mut self) -> (r: Option<MinoType>)
        requires
            old(self).min_items > 0 || old(self).stock@.len() > 0,
        ensures
            final(self).min_items == old(self).min_items,
            r is Some,
            extends_by_bags(old(self).stock@, seq![r.unwrap()] + final(self).stock@),
            final(self).stock@.len() + 1 >= old(self).min_items,
            old(self).stock@.len() >= old(self).min_items ==> seq![r.unwrap()] + final(self).stock@
                == old(self).stock@,
            old(self).stock@.len() < old(self).min_items ==> final(self).stock@.len() + 1
                < old(self).min_items + 7,
            bag_aligned(old(self).stock@) ==> bag_aligned(final(self).stock@),
    {
        let min_items = self.min_items;
        self.generate(min_items);
        let ghost full = self.stock@;
        let result = self.stock[0];
        self.stock.remove(0);
        proof {
            assert(seq![result] + self.stock@ =~= full);
            if bag_aligned(full) {
                lemma_aligned_drop_first(full);
                assert(full.drop_first() =~= self.stock@);
            }
        }
        Some(result)
    }
}

} // verus!
