//! The per-phase rules of a turn, stated over card sequences.
use vstd::prelude::*;
use crate::card::{Card, CardType};
use crate::creature::{is_creature, set_summoning_sickness, spec_is_creature, with_sickness};
use crate::tappable::{is_tapped, set_tapped, spec_tapped, with_tapped};

verus! {

/// `i` is the least index below `n` that satisfies `p`.
pub open spec fn is_first_in(n: int, p: spec_fn(int) -> bool, i: int) -> bool {
    &&& 0 <= i < n
    &&& p(i)
    &&& forall|j: int| 0 <= j < i ==> !#[trigger] p(j)
}

/// The least index below `n` that satisfies `p`, or -1 when there is none.
pub open spec fn first_in(n: int, p: spec_fn(int) -> bool) -> int {
    if exists|i: int| is_first_in(n, p, i) {
        choose|i: int| is_first_in(n, p, i)
    } else {
        -1
    }
}

pub proof fn lemma_first_in_found(n: int, p: spec_fn(int) -> bool, i: int)
    requires
        is_first_in(n, p, i),
    ensures
        first_in(n, p) == i,
{
    let k = first_in(n, p);
    assert(is_first_in(n, p, k));
    if k < i {
        assert(!p(k));
    } else if i < k {
        assert(!p(i));
    }
}

pub proof fn lemma_first_in_none(n: int, p: spec_fn(int) -> bool)
    requires
        forall|j: int| 0 <= j < n ==> !#[trigger] p(j),
    ensures
        first_in(n, p) == -1,
{
    if exists|i: int| is_first_in(n, p, i) {
        let i = choose|i: int| is_first_in(n, p, i);
        assert(p(i));
    }
}

/// A card that can pay one mana: an untapped Land.
pub open spec fn is_mana(c: Card) -> bool {
    c.has_type(CardType::Land) && !spec_tapped(c)
}

/// Number of untapped Lands in `s`.
pub open spec fn count_mana(s: Seq<Card>) -> nat
    decreases s.len(),
{
    if s.len() == 0 {
        0
    } else {
        count_mana(s.drop_last()) + if is_mana(s.last()) {
            1nat
        } else {
            0nat
        }
    }
}

/// Number of untapped Lands on `bf`: the mana available.
pub fn available_mana(bf: &Vec<Card>) -> (r: usize)
    ensures
        r == count_mana(bf@),
{
    let mut n: usize = 0;
    let mut i: usize = 0;
    while i < bf.len()
        invariant
            i <= bf@.len(),
            n == count_mana(bf@.take(i as int)),
            n <= i,
        decreases bf@.len() - i,
    {
        assert(bf@.take(i + 1).drop_last() == bf@.take(i as int));
        if bf[i].is_type(CardType::Land) && !is_tapped(&bf[i]) {
            n = n + 1;
        }
        i = i + 1;
    }
    assert(bf@.take(i as int) == bf@);
    n
}

/// `bf` after paying `need` mana: the first `need` untapped Lands, in order, are tapped.
pub open spec fn pay_spec(bf: Seq<Card>, need: nat) -> Seq<Card> {
    Seq::new(
        bf.len(),
        |j: int|
            if is_mana(bf[j]) && count_mana(bf.take(j)) < need {
                with_tapped(bf[j], true)
            } else {
                bf[j]
            },
    )
}

/// Tap the first `need` untapped Lands of `bf`, in order.
pub fn pay(bf: &mut Vec<Card>, need: u32)
    ensures
        final(bf)@ == pay_spec(old(bf)@, need as nat),
{
    let ghost orig = bf@;
    let mut paid: u32 = 0;
    let mut i: usize = 0;
    while i < bf.len()
        invariant
            bf@.len() == orig.len(),
            i <= orig.len(),
            paid <= need,
            paid as nat == if count_mana(orig.take(i as int)) < need {
                count_mana(orig.take(i as int))
            } else {
                need as nat
            },
            forall|j: int| 0 <= j < i ==> bf@[j] == pay_spec(orig, need as nat)[j],
            forall|j: int| i <= j < orig.len() ==> bf@[j] == orig[j],
        decreases orig.len() - i,
    {
        assert(orig.take(i + 1).drop_last() == orig.take(i as int));
        if paid < need && bf[i].is_type(CardType::Land) && !is_tapped(&bf[i]) {
            set_tapped(&mut bf[i], true);
            paid = paid + 1;
        }
        i = i + 1;
    }
    assert(bf@ == pay_spec(orig, need as nat));
}

/// Index predicate: the card at the index is Land-tagged.
pub open spec fn land_at(hand: Seq<Card>) -> spec_fn(int) -> bool {
    |i: int| hand[i].has_type(CardType::Land)
}

/// Index predicate: the card at the index is a creature that `avail` mana pays for.
pub open spec fn castable_at(hand: Seq<Card>, avail: nat) -> spec_fn(int) -> bool {
    |i: int| spec_is_creature(hand[i]) && hand[i].cost <= avail
}

/// Hand and battlefield after playing the first Land of the hand, if there is one.
pub open spec fn play_land_spec(hand: Seq<Card>, bf: Seq<Card>) -> (Seq<Card>, Seq<Card>) {
    let i = first_in(hand.len() as int, land_at(hand));
    if 0 <= i < hand.len() {
        (hand.remove(i), bf.push(hand[i]))
    } else {
        (hand, bf)
    }
}

/// Hand and battlefield after casting, one at a time, the first creature of the hand
/// that the untapped Lands pay for, until none is left.
pub open spec fn cast_all(hand: Seq<Card>, bf: Seq<Card>) -> (Seq<Card>, Seq<Card>)
    decreases hand.len(),
{
    let i = first_in(hand.len() as int, castable_at(hand, count_mana(bf)));
    if 0 <= i < hand.len() {
        let c = hand[i];
        cast_all(hand.remove(i), pay_spec(bf, c.cost as nat).push(with_sickness(c, true)))
    } else {
        (hand, bf)
    }
}

/// Summed cost of the creatures that `cast_all` casts.
pub open spec fn cast_cost(hand: Seq<Card>, bf: Seq<Card>) -> nat
    decreases hand.len(),
{
    let i = first_in(hand.len() as int, castable_at(hand, count_mana(bf)));
    if 0 <= i < hand.len() {
        let c = hand[i];
        c.cost as nat + cast_cost(
            hand.remove(i),
            pay_spec(bf, c.cost as nat).push(with_sickness(c, true)),
        )
    } else {
        0
    }
}

/// Number of the cards that `cast_all` casts that are untapped Lands themselves.
pub open spec fn cast_mana(hand: Seq<Card>, bf: Seq<Card>) -> nat
    decreases hand.len(),
{
    let i = first_in(hand.len() as int, castable_at(hand, count_mana(bf)));
    if 0 <= i < hand.len() {
        let c = hand[i];
        (if is_mana(c) {
            1nat
        } else {
            0nat
        }) + cast_mana(hand.remove(i), pay_spec(bf, c.cost as nat).push(with_sickness(c, true)))
    } else {
        0
    }
}

/// The automatic Main phase: at most one Land played, then creatures cast greedily.
pub open spec fn main_spec(hand: Seq<Card>, bf: Seq<Card>) -> (Seq<Card>, Seq<Card>) {
    let (h, b) = play_land_spec(hand, bf);
    cast_all(h, b)
}

/// Move the first Land of `hand`, if any, onto `bf`.
pub fn play_land(hand: &mut Vec<Card>, bf: &mut Vec<Card>)
    ensures
        (final(hand)@, final(bf)@) == play_land_spec(old(hand)@, old(bf)@),
{
    match find_land(hand) {
        Some(i) => {
            let card = hand.remove(i);
            bf.push(card);
        },
        None => {},
    }
}

/// Position of the first Land-tagged card of `hand`.
fn find_land(hand: &Vec<Card>) -> (r: Option<usize>)
    ensures
        r matches Some(i) ==> first_in(hand@.len() as int, land_at(hand@)) == i as int,
        r is None ==> first_in(hand@.len() as int, land_at(hand@)) == -1,
{
    let mut i: usize = 0;
    while i < hand.len()
        invariant
            i <= hand@.len(),
            forall|j: int| 0 <= j < i ==> !#[trigger] land_at(hand@)(j),
        decreases hand@.len() - i,
    {
        if hand[i].is_type(CardType::Land) {
            proof {
                lemma_first_in_found(hand@.len() as int, land_at(hand@), i as int);
            }
            return Some(i);
        }
        i = i + 1;
    }
    proof {
        lemma_first_in_none(hand@.len() as int, land_at(hand@));
    }
    None
}

/// Position of the first creature in `hand` that `avail` mana pays for.
fn find_castable(hand: &Vec<Card>, avail: usize) -> (r: Option<usize>)
    ensures
        r matches Some(i) ==> first_in(hand@.len() as int, castable_at(hand@, avail as nat))
            == i as int,
        r is None ==> first_in(hand@.len() as int, castable_at(hand@, avail as nat)) == -1,
{
    let mut i: usize = 0;
    while i < hand.len()
        invariant
            i <= hand@.len(),
            forall|j: int| 0 <= j < i ==> !#[trigger] castable_at(hand@, avail as nat)(j),
        decreases hand@.len() - i,
    {
        if is_creature(&hand[i]) && (hand[i].cost as usize) <= avail {
            proof {
                lemma_first_in_found(hand@.len() as int, castable_at(hand@, avail as nat), i as int);
            }
            return Some(i);
        }
        i = i + 1;
    }
    proof {
        lemma_first_in_none(hand@.len() as int, castable_at(hand@, avail as nat));
    }
    None
}

/// Cast creatures from `hand` onto `bf` while one is affordable: the first affordable
/// creature is taken, its cost paid with untapped Lands, and it enters with sickness.
pub fn cast_creatures(hand: &mut Vec<Card>, bf: &mut Vec<Card>)
    ensures
        (final(hand)@, final(bf)@) == cast_all(old(hand)@, old(bf)@),
{
    let ghost h0 = hand@;
    let ghost b0 = bf@;
    loop
        invariant
            cast_all(hand@, bf@) == cast_all(h0, b0),
        ensures
            (hand@, bf@) == cast_all(h0, b0),
        decreases hand@.len(),
    {
        let avail = available_mana(bf);
        match find_castable(hand, avail) {
            Some(pos) => {
                let mut card = hand.remove(pos);
                set_summoning_sickness(&mut card, true);
                pay(bf, card.cost);
                bf.push(card);
            },
            None => {
                break;
            },
        }
    }
}

} // verus!
