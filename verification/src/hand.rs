//! Helpers on a player's hand: the order in which a hand is shown, and its
//! jokers.
use crate::cards::{rank_is_joker, rank_value, Card, Suit};
use crate::game::holds_joker;
use vstd::prelude::*;
use vstd::seq_lib::lemma_multiset_commutative;

verus! {

broadcast use vstd::multiset::group_multiset_axioms;

/// The position of a suit in the order Clubs, Diamonds, Hearts, Spades.
pub open spec fn suit_rank(s: Suit) -> u8 {
    match s {
        Suit::Clubs => 0,
        Suit::Diamonds => 1,
        Suit::Hearts => 2,
        Suit::Spades => 3,
    }
}

/// The key by which a hand is shown: jokers first, then by suit (Clubs,
/// Diamonds, Hearts, Spades), then by face value from low to high.
pub open spec fn sort_key(c: Card) -> (u8, u8, u8) {
    (if rank_is_joker(c.rank) {
        0u8
    } else {
        1u8
    }, suit_rank(c.suit), rank_value(c.rank))
}

/// The lexicographic order on sort keys: `a` is not after `b`.
pub open spec fn key_le(a: (u8, u8, u8), b: (u8, u8, u8)) -> bool {
    ||| a.0 < b.0
    ||| a.0 == b.0 && a.1 < b.1
    ||| a.0 == b.0 && a.1 == b.1 && a.2 <= b.2
}

/// Whether the cards of `s` come in the order of their sort keys.
pub open spec fn sorted_by_key(s: Seq<Card>) -> bool {
    forall|i: int, j: int| 0 <= i < j < s.len() ==> key_le(sort_key(#[trigger] s[i]), sort_key(#[trigger] s[j]))
}

/// The cards of `s` whose sort key is `k`, in the order of `s`.
pub open spec fn with_key(s: Seq<Card>, k: (u8, u8, u8)) -> Seq<Card> {
    s.filter(|c: Card| sort_key(c) == k)
}

/// `s` with `x` inserted before its first card whose key comes after `x`'s.
pub open spec fn insert_by_key(s: Seq<Card>, x: Card) -> Seq<Card>
    decreases s.len(),
{
    if s.len() == 0 || !key_le(sort_key(s[0]), sort_key(x)) {
        seq![x] + s
    } else {
        seq![s[0]] + insert_by_key(s.drop_first(), x)
    }
}

/// The order in which the hand `h` is shown: its cards inserted one after
/// the other, each after every card already placed whose key is not after its
/// own (a stable sort by `sort_key`).
pub open spec fn display_order(h: Seq<Card>) -> Seq<Card>
    decreases h.len(),
{
    if h.len() == 0 {
        Seq::empty()
    } else {
        insert_by_key(display_order(h.drop_last()), h.last())
    }
}

proof fn lemma_insert_by_key(s: Seq<Card>, x: Card, pos: int)
    requires
        0 <= pos <= s.len(),
        forall|j: int| 0 <= j < pos ==> key_le(sort_key(#[trigger] s[j]), sort_key(x)),
        pos < s.len() ==> !key_le(sort_key(s[pos]), sort_key(x)),
    ensures
        insert_by_key(s, x) == s.insert(pos, x),
    decreases pos,
{
    if pos == 0 {
        assert(insert_by_key(s, x) =~= s.insert(0, x));
    } else {
        assert(key_le(sort_key(s[0]), sort_key(x)));
        let t = s.drop_first();
        assert forall|j: int| 0 <= j < pos - 1 implies key_le(sort_key(#[trigger] t[j]), sort_key(x)) by {
            assert(t[j] == s[j + 1]);
        }
        lemma_insert_by_key(t, x, pos - 1);
        assert(seq![s[0]] + t.insert(pos - 1, x) =~= s.insert(pos, x));
    }
}

/// The number of jokers in `s`.
pub open spec fn jokers_in(s: Seq<Card>) -> nat {
    s.filter(|c: Card| rank_is_joker(c.rank)).len()
}

pub fn suit_order(s: Suit) -> (o: u8)
    ensures
        o == suit_rank(s),
{
    match s {
        Suit::Clubs => 0,
        Suit::Diamonds => 1,
        Suit::Hearts => 2,
        Suit::Spades => 3,
    }
}

fn key_of(c: &Card) -> (k: (u8, u8, u8))
    ensures
        k == sort_key(*c),
{
    let j: u8 = if c.is_joker() {
        0
    } else {
        1
    };
    (j, suit_order(c.suit), c.rank.num_value())
}

fn key_not_after(a: (u8, u8, u8), b: (u8, u8, u8)) -> (r: bool)
    ensures
        r == key_le(a, b),
{
    a.0 < b.0 || (a.0 == b.0 && a.1 < b.1) || (a.0 == b.0 && a.1 == b.1 && a.2 <= b.2)
}

proof fn lemma_with_key_split(a: Seq<Card>, b: Seq<Card>, k: (u8, u8, u8))
    ensures
        with_key(a + b, k) == with_key(a, k) + with_key(b, k),
{
    Seq::filter_distributes_over_add(a, b, |c: Card| sort_key(c) == k);
}

/// Sorts a hand for display: jokers first, then by suit, then by face value
/// (see `sort_key`). The sort is stable: cards with equal keys keep their
/// order.
pub fn sort_hand(hand: &mut Vec<Card>)
    ensures
        final(hand)@.len() == old(hand)@.len(),
        final(hand)@.to_multiset() == old(hand)@.to_multiset(),
        sorted_by_key(final(hand)@),
        forall|k: (u8, u8, u8)| #[trigger] with_key(final(hand)@, k) == with_key(old(hand)@, k),
        final(hand)@ == display_order(old(hand)@),
{
    let n = hand.len();
    let ghost h = hand@;
    let mut r: Vec<Card> = Vec::with_capacity(n);
    let mut i: usize = 0;
    assert(h.take(0) =~= r@);
    assert(display_order(h.take(0)) =~= r@);
    while i < n
        invariant
            n == h.len(),
            h == hand@,
            i <= n,
            r@.len() == i,
            r@.to_multiset() == h.take(i as int).to_multiset(),
            sorted_by_key(r@),
            forall|k: (u8, u8, u8)| #[trigger] with_key(r@, k) == with_key(h.take(i as int), k),
            r@ == display_order(h.take(i as int)),
        decreases n - i,
    {
        let x = hand[i];
        let kx = key_of(&x);
        let m = r.len();
        let mut pos: usize = 0;
        while pos < m && key_not_after(key_of(&r[pos]), kx)
            invariant
                m == r@.len(),
                pos <= m,
                kx == sort_key(x),
                forall|j: int| 0 <= j < pos ==> key_le(sort_key(#[trigger] r@[j]), kx),
            decreases m - pos,
        {
            pos = pos + 1;
        }
        let ghost old_r = r@;
        proof {
            // every card from `pos` on comes strictly after `x`
            assert forall|j: int| pos <= j < m implies !key_le(sort_key(#[trigger] old_r[j]), kx) by {
                assert(!key_le(sort_key(old_r[pos as int]), kx));
                if j > pos {
                    assert(key_le(sort_key(old_r[pos as int]), sort_key(old_r[j])));
                }
            }
        }
        r.insert(pos, x);
        proof {
            lemma_insert_by_key(old_r, x, pos as int);
            assert(h.take(i + 1).drop_last() =~= h.take(i as int));
            let front = old_r.take(pos as int);
            let back = old_r.skip(pos as int);
            assert(old_r =~= front + back);
            assert(r@ =~= front + seq![x] + back);
            assert(h.take(i + 1) =~= h.take(i as int).push(x));
            assert(front + seq![x] =~= front.push(x));
            lemma_multiset_commutative(front, back);
            lemma_multiset_commutative(front.push(x), back);
            front.to_multiset_ensures();
            h.take(i as int).to_multiset_ensures();
            assert(r@.to_multiset() =~= h.take(i + 1).to_multiset());
            assert forall|k: (u8, u8, u8)| #[trigger] with_key(r@, k) == with_key(h.take(i + 1), k) by {
                let p = |c: Card| sort_key(c) == k;
                lemma_with_key_split(front + seq![x], back, k);
                lemma_with_key_split(front, seq![x], k);
                lemma_with_key_split(front, back, k);
                h.take(i as int).lemma_filter_push(x, p);
                Seq::<Card>::empty().lemma_filter_push(x, p);
                assert(Seq::<Card>::empty().push(x) =~= seq![x]);
                reveal(Seq::filter);
                assert(Seq::<Card>::empty().filter(p) =~= Seq::<Card>::empty());
                if k == kx {
                    assert forall|j: int| 0 <= j < back.len() implies !p(#[trigger] back[j]) by {
                        assert(back[j] == old_r[pos + j]);
                    }
                    back.lemma_all_neg_filter_empty(p);
                    assert(with_key(back, k) =~= Seq::<Card>::empty());
                    assert(with_key(r@, k) =~= with_key(front, k).push(x));
                    assert(with_key(old_r, k) =~= with_key(front, k));
                } else {
                    assert(with_key(seq![x], k) =~= Seq::<Card>::empty());
                    assert(with_key(r@, k) =~= with_key(front, k) + with_key(back, k));
                }
            }
            assert forall|a: int, b: int| 0 <= a < b < r@.len() implies key_le(
                sort_key(#[trigger] r@[a]),
                sort_key(#[trigger] r@[b]),
            ) by {
                if b < pos {
                    assert(r@[a] == old_r[a] && r@[b] == old_r[b]);
                } else if b == pos {
                    assert(r@[a] == old_r[a]);
                } else if a < pos {
                    assert(r@[a] == old_r[a] && r@[b] == old_r[b - 1]);
                    assert(key_le(sort_key(old_r[a]), kx));
                    assert(!key_le(sort_key(old_r[b - 1]), kx));
                } else if a == pos {
                    assert(r@[b] == old_r[b - 1]);
                    assert(!key_le(sort_key(old_r[b - 1]), kx));
                } else {
                    assert(r@[a] == old_r[a - 1] && r@[b] == old_r[b - 1]);
                }
            }
        }
        i = i + 1;
    }
    proof {
        assert(h.take(n as int) =~= h);
    }
    *hand = r;
}

/// The number of jokers in a hand.
pub fn joker_count(hand: &Vec<Card>) -> (n: usize)
    ensures
        n == jokers_in(hand@),
{
    let len = hand.len();
    let mut count: usize = 0;
    let mut i: usize = 0;
    while i < len
        invariant
            len == hand@.len(),
            i <= len,
            count == jokers_in(hand@.take(i as int)),
            count <= i,
        decreases len - i,
    {
        proof {
            assert(hand@.take(i + 1) =~= hand@.take(i as int).push(hand@[i as int]));
            hand@.take(i as int).lemma_filter_push(hand@[i as int], |c: Card| rank_is_joker(c.rank));
        }
        if hand[i].is_joker() {
            count = count + 1;
        }
        i = i + 1;
    }
    proof {
        assert(hand@.take(len as int) =~= hand@);
    }
    count
}

proof fn lemma_insert_by_key_sorted(s: Seq<Card>, x: Card)
    requires
        sorted_by_key(s),
    ensures
        sorted_by_key(insert_by_key(s, x)),
        insert_by_key(s, x).len() == s.len() + 1,
        forall|c: Card| #[trigger] insert_by_key(s, x).contains(c) ==> c == x || s.contains(c),
    decreases s.len(),
{
    let r = insert_by_key(s, x);
    if s.len() == 0 || !key_le(sort_key(s[0]), sort_key(x)) {
        assert(r == seq![x] + s);
        assert forall|i: int, j: int| 0 <= i < j < r.len() implies key_le(sort_key(#[trigger] r[i]), sort_key(#[trigger] r[j])) by {
            if i == 0 {
                assert(key_le(sort_key(s[0]), sort_key(s[j - 1])) || j == 1);
            } else {
                assert(r[i] == s[i - 1] && r[j] == s[j - 1]);
            }
        }
        assert forall|c: Card| #[trigger] r.contains(c) implies c == x || s.contains(c) by {
            let i = choose|i: int| 0 <= i < r.len() && r[i] == c;
            if i > 0 {
                assert(s[i - 1] == c);
            }
        }
    } else {
        let t = s.drop_first();
        assert forall|i: int, j: int| 0 <= i < j < t.len() implies key_le(sort_key(#[trigger] t[i]), sort_key(#[trigger] t[j])) by {
            assert(t[i] == s[i + 1] && t[j] == s[j + 1]);
        }
        lemma_insert_by_key_sorted(t, x);
        let u = insert_by_key(t, x);
        assert(r == seq![s[0]] + u);
        assert forall|j: int| 0 <= j < u.len() implies key_le(sort_key(s[0]), sort_key(#[trigger] u[j])) by {
            assert(u.contains(u[j]));
            if u[j] != x {
                assert(t.contains(u[j]));
                let k = choose|k: int| 0 <= k < t.len() && t[k] == u[j];
                assert(s[k + 1] == u[j]);
            }
        }
        assert forall|i: int, j: int| 0 <= i < j < r.len() implies key_le(sort_key(#[trigger] r[i]), sort_key(#[trigger] r[j])) by {
            if i == 0 {
                assert(r[j] == u[j - 1]);
            } else {
                assert(r[i] == u[i - 1] && r[j] == u[j - 1]);
            }
        }
        assert forall|c: Card| #[trigger] r.contains(c) implies c == x || s.contains(c) by {
            let i = choose|i: int| 0 <= i < r.len() && r[i] == c;
            if i > 0 {
                assert(u[i - 1] == c);
                assert(u.contains(c));
                if c != x {
                    assert(t.contains(c));
                    let k = choose|k: int| 0 <= k < t.len() && t[k] == c;
                    assert(s[k + 1] == c);
                }
            }
        }
    }
}

/// Law: the shown order of a hand is sorted by key (jokers first, then by
/// suit, then by face value), and a hand that is already in that order is
/// shown as it is; so sorting a sorted hand again changes nothing.
pub proof fn lemma_display_order(h: Seq<Card>)
    ensures
        sorted_by_key(display_order(h)),
        display_order(h).len() == h.len(),
        sorted_by_key(h) ==> display_order(h) == h,
        display_order(display_order(h)) == display_order(h),
    decreases h.len(),
{
    if h.len() > 0 {
        let rest = h.drop_last();
        lemma_display_order(rest);
        lemma_insert_by_key_sorted(display_order(rest), h.last());
        if sorted_by_key(h) {
            assert forall|i: int, j: int| 0 <= i < j < rest.len() implies key_le(sort_key(#[trigger] rest[i]), sort_key(#[trigger] rest[j])) by {
                assert(rest[i] == h[i] && rest[j] == h[j]);
            }
            assert(display_order(rest) == rest);
            assert forall|j: int| 0 <= j < rest.len() implies key_le(sort_key(#[trigger] rest[j]), sort_key(h.last())) by {
                assert(rest[j] == h[j]);
            }
            lemma_insert_by_key(rest, h.last(), rest.len() as int);
            assert(rest.insert(rest.len() as int, h.last()) =~= h);
        }
        let d = display_order(h);
        // the shown order is sorted, so showing it again keeps it
        if d.len() > 0 {
            lemma_display_order_of_sorted(d);
        }
    } else {
        assert(display_order(h) =~= h);
    }
}

proof fn lemma_display_order_of_sorted(h: Seq<Card>)
    requires
        sorted_by_key(h),
    ensures
        display_order(h) == h,
    decreases h.len(),
{
    if h.len() > 0 {
        let rest = h.drop_last();
        assert forall|i: int, j: int| 0 <= i < j < rest.len() implies key_le(sort_key(#[trigger] rest[i]), sort_key(#[trigger] rest[j])) by {
            assert(rest[i] == h[i] && rest[j] == h[j]);
        }
        lemma_display_order_of_sorted(rest);
        assert forall|j: int| 0 <= j < rest.len() implies key_le(sort_key(#[trigger] rest[j]), sort_key(h.last())) by {
            assert(rest[j] == h[j]);
        }
        lemma_insert_by_key(rest, h.last(), rest.len() as int);
        assert(rest.insert(rest.len() as int, h.last()) =~= h);
    } else {
        assert(display_order(h) =~= h);
    }
}

/// Law: a hand holds a joker exactly when its joker count is not zero.
pub proof fn lemma_joker_count(h: Seq<Card>)
    ensures
        (jokers_in(h) > 0) == holds_joker(h),
        jokers_in(h) <= h.len(),
{
    let p = |c: Card| rank_is_joker(c.rank);
    h.lemma_filter_len(p);
    if holds_joker(h) {
        let i = choose|i: int| 0 <= i < h.len() && rank_is_joker(#[trigger] h[i].rank);
        h.lemma_filter_contains(p, i);
    }
    if jokers_in(h) > 0 {
        let f = h.filter(p);
        h.lemma_filter_pred(p, 0);
        assert(f.contains(f[0]));
        h.lemma_filter_contains_rev(p, f[0]);
        let i = choose|i: int| 0 <= i < h.len() && h[i] == f[0];
        assert(rank_is_joker(h[i].rank));
    }
}

} // verus!
