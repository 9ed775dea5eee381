//! Declaring attackers and blockers, and resolving combat damage.
use vstd::prelude::*;
use crate::card::{Card, CardType};
use crate::creature::{
    has_summoning_sickness, is_creature, power_of, spec_is_creature, spec_power, spec_sick,
    spec_toughness, toughness_of,
};
use crate::rules::{first_in, lemma_first_in_found, lemma_first_in_none};
use crate::tappable::{is_tapped, set_tapped, spec_tapped, with_tapped};

verus! {

/// A card that attacks automatically: Creature-tagged, not summoning sick, untapped.
pub open spec fn ready_to_attack(c: Card) -> bool {
    c.has_type(CardType::Creature) && !spec_sick(c) && !spec_tapped(c)
}

/// Positions of the cards of `bf` that are ready to attack, in increasing order.
pub open spec fn ready_positions(bf: Seq<Card>) -> Seq<usize>
    decreases bf.len(),
{
    if bf.len() == 0 {
        seq![]
    } else {
        ready_positions(bf.drop_last()) + if ready_to_attack(bf.last()) {
            seq![(bf.len() - 1) as usize]
        } else {
            seq![]
        }
    }
}

/// `bf` with every card that is ready to attack tapped.
pub open spec fn tap_ready(bf: Seq<Card>) -> Seq<Card> {
    bf.map_values(|c: Card| if ready_to_attack(c) { with_tapped(c, true) } else { c })
}

/// `bf` with the cards at `positions` tapped; positions past the end are skipped.
pub open spec fn tap_positions_spec(bf: Seq<Card>, positions: Seq<usize>) -> Seq<Card> {
    Seq::new(
        bf.len(),
        |j: int|
            if positions.contains(j as usize) {
                with_tapped(bf[j], true)
            } else {
                bf[j]
            },
    )
}

/// Select every card ready to attack, tap them, and return their positions.
pub fn auto_attackers(bf: &mut Vec<Card>) -> (r: Vec<usize>)
    ensures
        r@ == ready_positions(old(bf)@),
        final(bf)@ == tap_ready(old(bf)@),
{
    let ghost orig = bf@;
    let mut r: Vec<usize> = Vec::new();
    let mut i: usize = 0;
    while i < bf.len()
        invariant
            bf@.len() == orig.len(),
            i <= orig.len(),
            r@ == ready_positions(orig.take(i as int)),
            forall|j: int| 0 <= j < i ==> bf@[j] == tap_ready(orig)[j],
            forall|j: int| i <= j < orig.len() ==> bf@[j] == orig[j],
        decreases orig.len() - i,
    {
        assert(orig.take(i + 1).drop_last() == orig.take(i as int));
        if bf[i].is_type(CardType::Creature) && !has_summoning_sickness(&bf[i]) && !is_tapped(
            &bf[i],
        ) {
            r.push(i);
            set_tapped(&mut bf[i], true);
        }
        i = i + 1;
    }
    assert(orig.take(i as int) == orig);
    assert(bf@ == tap_ready(orig));
    r
}

/// Tap the cards at `positions`; positions past the end of `bf` are skipped.
pub fn tap_positions(bf: &mut Vec<Card>, positions: &Vec<usize>)
    ensures
        final(bf)@ == tap_positions_spec(old(bf)@, positions@),
{
    let ghost orig = bf@;
    let mut k: usize = 0;
    while k < positions.len()
        invariant
            k <= positions@.len(),
            bf@ == tap_positions_spec(orig, positions@.take(k as int)),
        decreases positions@.len() - k,
    {
        let idx = positions[k];
        if idx < bf.len() {
            set_tapped(&mut bf[idx], true);
        }
        assert(bf@ == tap_positions_spec(orig, positions@.take(k + 1))) by {
            assert(positions@.take(k + 1) == positions@.take(k as int).push(idx));
            assert forall|j: int| 0 <= j < orig.len() implies bf@[j] == tap_positions_spec(
                orig,
                positions@.take(k + 1),
            )[j] by {
                lemma_push_contains(positions@.take(k as int), idx, j as usize);
            }
        }
        k = k + 1;
    }
    assert(positions@.take(k as int) == positions@);
}

proof fn lemma_push_contains(s: Seq<usize>, x: usize, y: usize)
    ensures
        s.push(x).contains(y) <==> (s.contains(y) || y == x),
{
    if s.contains(y) {
        let j = choose|j: int| 0 <= j < s.len() && s[j] == y;
        assert(s.push(x)[j] == y);
    }
    if y == x {
        assert(s.push(x)[s.len() as int] == y);
    }
    if s.push(x).contains(y) {
        let j = choose|j: int| 0 <= j < s.push(x).len() && s.push(x)[j] == y;
        if j < s.len() {
            assert(s[j] == y);
        }
    }
}

/// Whether `v` holds `x`.
pub fn contains_position(v: &Vec<usize>, x: usize) -> (r: bool)
    ensures
        r == v@.contains(x),
{
    let mut i: usize = 0;
    while i < v.len()
        invariant
            i <= v@.len(),
            forall|j: int| 0 <= j < i ==> v@[j] != x,
        decreases v@.len() - i,
    {
        if v[i] == x {
            return true;
        }
        i = i + 1;
    }
    false
}

/// The blockers named in a list of (blocker, attacker) pairs.
pub open spec fn blockers_in(m: Seq<(usize, usize)>) -> Seq<usize> {
    m.map_values(|p: (usize, usize)| p.0)
}

/// Index predicate: the card at the index may block an attacker of toughness `t`,
/// given the attackers and the blocks already made.
pub open spec fn can_block(
    bf: Seq<Card>,
    attackers: Seq<usize>,
    made: Seq<(usize, usize)>,
    t: int,
) -> spec_fn(int) -> bool {
    |b: int|
        !blockers_in(made).contains(b as usize) && !attackers.contains(b as usize)
            && spec_is_creature(bf[b]) && !spec_tapped(bf[b]) && spec_power(bf[b]) >= t
}

/// The blocks made for the first `k` attackers: each attacker, in order, takes the first
/// free creature that can kill it.
pub open spec fn blocks_spec(bf: Seq<Card>, attackers: Seq<usize>, k: nat) -> Seq<(usize, usize)>
    decreases k,
{
    if k == 0 {
        seq![]
    } else {
        let made = blocks_spec(bf, attackers, (k - 1) as nat);
        let a = attackers[k - 1];
        if (a as int) < bf.len() {
            let b = first_in(bf.len() as int, can_block(bf, attackers, made, spec_toughness(bf[a as int])));
            if b >= 0 {
                made.push((b as usize, a))
            } else {
                made
            }
        } else {
            made
        }
    }
}

/// The automatic blocks for all attackers.
pub open spec fn auto_blocks_spec(bf: Seq<Card>, attackers: Seq<usize>) -> Seq<(usize, usize)> {
    blocks_spec(bf, attackers, attackers.len())
}

fn has_blocker(made: &Vec<(usize, usize)>, b: usize) -> (r: bool)
    ensures
        r == blockers_in(made@).contains(b),
{
    let mut i: usize = 0;
    while i < made.len()
        invariant
            i <= made@.len(),
            forall|j: int| 0 <= j < i ==> made@[j].0 != b,
        decreases made@.len() - i,
    {
        if made[i].0 == b {
            assert(blockers_in(made@)[i as int] == b);
            return true;
        }
        i = i + 1;
    }
    assert(!blockers_in(made@).contains(b)) by {
        if blockers_in(made@).contains(b) {
            let j = choose|j: int| 0 <= j < blockers_in(made@).len() && blockers_in(made@)[j] == b;
            assert(made@[j].0 == b);
        }
    }
    false
}

fn find_blocker(bf: &Vec<Card>, attackers: &Vec<usize>, made: &Vec<(usize, usize)>, t: u8) -> (r:
    Option<usize>)
    ensures
        r matches Some(b) ==> first_in(bf@.len() as int, can_block(bf@, attackers@, made@, t as int))
            == b as int,
        r is None ==> first_in(bf@.len() as int, can_block(bf@, attackers@, made@, t as int)) == -1,
{
    let ghost p = can_block(bf@, attackers@, made@, t as int);
    let mut b: usize = 0;
    while b < bf.len()
        invariant
            b <= bf@.len(),
            p == can_block(bf@, attackers@, made@, t as int),
            forall|j: int| 0 <= j < b ==> !#[trigger] p(j),
        decreases bf@.len() - b,
    {
        if !has_blocker(made, b) && !contains_position(attackers, b) && is_creature(&bf[b])
            && !is_tapped(&bf[b]) && power_of(&bf[b]) >= t {
            proof {
                lemma_first_in_found(bf@.len() as int, p, b as int);
            }
            return Some(b);
        }
        b = b + 1;
    }
    proof {
        lemma_first_in_none(bf@.len() as int, p);
    }
    None
}

/// For each attacker in order, block it with the first free, untapped, non-attacking
/// creature of `bf` whose power reaches its toughness; a blocker is used at most once.
pub fn auto_blockers(bf: &Vec<Card>, attackers: &Vec<usize>) -> (r: Vec<(usize, usize)>)
    ensures
        r@ == auto_blocks_spec(bf@, attackers@),
{
    let mut made: Vec<(usize, usize)> = Vec::new();
    let mut k: usize = 0;
    while k < attackers.len()
        invariant
            k <= attackers@.len(),
            made@ == blocks_spec(bf@, attackers@, k as nat),
        decreases attackers@.len() - k,
    {
        let a = attackers[k];
        if a < bf.len() {
            let t = toughness_of(&bf[a]);
            match find_blocker(bf, attackers, &made, t) {
                Some(b) => {
                    made.push((b, a));
                },
                None => {},
            }
        }
        k = k + 1;
    }
    made
}

/// Index predicate: the pair at the index names blocker `b`.
pub open spec fn names_blocker(m: Seq<(usize, usize)>, b: usize) -> spec_fn(int) -> bool {
    |k: int| m[k].0 == b
}

/// `m` with pair `p` recorded for its blocker: a pair for the same blocker is replaced
/// in place, otherwise `p` is added at the end.
pub open spec fn set_block(m: Seq<(usize, usize)>, p: (usize, usize)) -> Seq<(usize, usize)> {
    let i = first_in(m.len() as int, names_blocker(m, p.0));
    if 0 <= i {
        m.update(i, p)
    } else {
        m.push(p)
    }
}

/// The blocks recorded from `pairs` in order: one pair per blocker, the last one given.
pub open spec fn blocks_from(pairs: Seq<(usize, usize)>) -> Seq<(usize, usize)>
    decreases pairs.len(),
{
    if pairs.len() == 0 {
        seq![]
    } else {
        set_block(blocks_from(pairs.drop_last()), pairs.last())
    }
}

/// No blocker appears in two pairs.
pub open spec fn distinct_blockers(m: Seq<(usize, usize)>) -> bool {
    forall|i: int, j: int| 0 <= i < j < m.len() ==> #[trigger] m[i].0 != #[trigger] m[j].0
}

/// Record pair `p` for its blocker, replacing an earlier pair for that blocker.
pub fn set_block_in(m: &mut Vec<(usize, usize)>, p: (usize, usize))
    requires
        distinct_blockers(old(m)@),
    ensures
        final(m)@ == set_block(old(m)@, p),
        distinct_blockers(final(m)@),
{
    let ghost m0 = m@;
    let mut i: usize = 0;
    let mut found: Option<usize> = None;
    while i < m.len()
        invariant
            m@ == m0,
            i <= m0.len(),
            found matches Some(k) ==> first_in(m0.len() as int, names_blocker(m0, p.0)) == k as int
                && k < m0.len(),
            found is None ==> forall|j: int| 0 <= j < i ==> !#[trigger] names_blocker(m0, p.0)(j),
        decreases m0.len() - i,
    {
        if found.is_none() && m[i].0 == p.0 {
            proof {
                lemma_first_in_found(m0.len() as int, names_blocker(m0, p.0), i as int);
            }
            found = Some(i);
        }
        i = i + 1;
    }
    match found {
        Some(k) => {
            m.set(k, p);
        },
        None => {
            proof {
                lemma_first_in_none(m0.len() as int, names_blocker(m0, p.0));
            }
            m.push(p);
            assert forall|x: int, y: int| 0 <= x < y < m@.len() implies #[trigger] m@[x].0
                != #[trigger] m@[y].0 by {
                if y == m0.len() {
                    assert(!names_blocker(m0, p.0)(x));
                }
            }
        },
    }
}

/// The blocks recorded from `pairs`, in order, one pair per blocker.
pub fn blocks_of(pairs: &Vec<(usize, usize)>) -> (r: Vec<(usize, usize)>)
    ensures
        r@ == blocks_from(pairs@),
        distinct_blockers(r@),
{
    let mut r: Vec<(usize, usize)> = Vec::new();
    let mut k: usize = 0;
    while k < pairs.len()
        invariant
            k <= pairs@.len(),
            r@ == blocks_from(pairs@.take(k as int)),
            distinct_blockers(r@),
        decreases pairs@.len() - k,
    {
        assert(pairs@.take(k + 1).drop_last() == pairs@.take(k as int));
        set_block_in(&mut r, pairs[k]);
        k = k + 1;
    }
    assert(pairs@.take(k as int) == pairs@);
    r
}

/// The blocker assigned to attacker `a`: the first pair of `m` that names `a` and
/// whose blocker position is below `n`, the battlefield's length. Pairs whose blocker
/// is past the end are stale and count as absent.
pub open spec fn blocker_of(n: int, m: Seq<(usize, usize)>, a: usize) -> Option<usize>
    decreases m.len(),
{
    if m.len() == 0 {
        None
    } else if m[0].1 == a && (m[0].0 as int) < n {
        Some(m[0].0)
    } else {
        blocker_of(n, m.drop_first(), a)
    }
}

pub proof fn lemma_blocker_of_in_range(n: int, m: Seq<(usize, usize)>, a: usize)
    ensures
        blocker_of(n, m, a) matches Some(b) ==> (b as int) < n,
    decreases m.len(),
{
    if m.len() > 0 {
        lemma_blocker_of_in_range(n, m.drop_first(), a);
    }
}

fn find_blocker_of(n: usize, m: &Vec<(usize, usize)>, a: usize) -> (r: Option<usize>)
    ensures
        r == blocker_of(n as int, m@, a),
{
    let mut i: usize = 0;
    assert(m@.subrange(0, m@.len() as int) == m@);
    while i < m.len()
        invariant
            i <= m@.len(),
            blocker_of(n as int, m@, a) == blocker_of(n as int, m@.subrange(i as int, m@.len() as int), a),
        decreases m@.len() - i,
    {
        assert(m@.subrange(i as int, m@.len() as int).drop_first() == m@.subrange(
            i + 1,
            m@.len() as int,
        ));
        if m[i].1 == a && m[i].0 < n {
            return Some(m[i].0);
        }
        i = i + 1;
    }
    None
}

/// Damage that attacker `a` deals to the opponents: its power when it is on `bf`
/// and no pair of `m` blocks it with a card on `bf`.
pub open spec fn unblocked_power(bf: Seq<Card>, m: Seq<(usize, usize)>, a: usize) -> int {
    if (a as int) < bf.len() && blocker_of(bf.len() as int, m, a) is None {
        spec_power(bf[a as int])
    } else {
        0
    }
}

/// Total damage the unblocked attackers deal to each opponent.
pub open spec fn unblocked_damage(bf: Seq<Card>, attackers: Seq<usize>, m: Seq<(usize, usize)>) -> int
    decreases attackers.len(),
{
    if attackers.len() == 0 {
        0
    } else {
        unblocked_damage(bf, attackers.drop_last(), m) + unblocked_power(bf, m, attackers.last())
    }
}

/// The block of attacker `a` destroys the card at position `j`: the blocker when the
/// attacker's power reaches the blocker's toughness, the attacker when the blocker's
/// power reaches the attacker's toughness (both at once).
pub open spec fn kills(bf: Seq<Card>, m: Seq<(usize, usize)>, a: usize, j: int) -> bool {
    &&& (a as int) < bf.len()
    &&& match blocker_of(bf.len() as int, m, a) {
        Some(b) => (b as int) < bf.len() && ((j == b as int && spec_power(bf[a as int])
            >= spec_toughness(bf[b as int])) || (j == a as int && spec_power(bf[b as int])
            >= spec_toughness(bf[a as int]))),
        None => false,
    }
}

/// The card at position `j` is destroyed by the block of one of the first `k` attackers.
pub open spec fn dies_upto(
    bf: Seq<Card>,
    attackers: Seq<usize>,
    m: Seq<(usize, usize)>,
    k: int,
    j: int,
) -> bool {
    exists|q: int| 0 <= q < k && #[trigger] kills(bf, m, attackers[q], j)
}

/// The card at position `j` is destroyed in combat.
pub open spec fn dies(bf: Seq<Card>, attackers: Seq<usize>, m: Seq<(usize, usize)>, j: int) -> bool {
    dies_upto(bf, attackers, m, attackers.len() as int, j)
}

/// Life after losing `d`, saturating at the least `i32`.
pub open spec fn after_damage(life: i32, d: int) -> i32 {
    if life - d < i32::MIN {
        i32::MIN
    } else {
        (life - d) as i32
    }
}

/// Damage totals at or past this bound take any life total to the least `i32`.
pub const DAMAGE_CAP: u64 = 4294967296;

/// `d` stands for the exact damage `exact`: equal below the cap, at least the cap above.
pub open spec fn damage_stands_for(d: u64, exact: int) -> bool {
    &&& exact < DAMAGE_CAP ==> d == exact
    &&& exact >= DAMAGE_CAP ==> d >= DAMAGE_CAP
    &&& d < DAMAGE_CAP + 256
}

proof fn lemma_unblocked_damage_nonneg(bf: Seq<Card>, attackers: Seq<usize>, m: Seq<(usize, usize)>)
    ensures
        unblocked_damage(bf, attackers, m) >= 0,
    decreases attackers.len(),
{
    if attackers.len() > 0 {
        lemma_unblocked_damage_nonneg(bf, attackers.drop_last(), m);
    }
}

proof fn lemma_after_damage_stands(life: i32, d: u64, exact: int)
    requires
        damage_stands_for(d, exact),
    ensures
        after_damage(life, d as int) == after_damage(life, exact),
{
}

/// Subtract `damage` from the life of every player but `cur`.
pub fn damage_others(players: &mut Vec<crate::game::Player>, cur: usize, damage: u64, Ghost(exact): Ghost<int>)
    requires
        cur < old(players)@.len(),
        damage_stands_for(damage, exact),
    ensures
        final(players)@.len() == old(players)@.len(),
        final(players)@[cur as int] == old(players)@[cur as int],
        forall|i: int|
            0 <= i < old(players)@.len() && i != cur ==> {
                &&& #[trigger] final(players)@[i].life == after_damage(old(players)@[i].life, exact)
                &&& final(players)@[i].zones == old(players)@[i].zones
            },
{
    let ghost orig = players@;
    let mut j: usize = 0;
    while j < players.len()
        invariant
            players@.len() == orig.len(),
            j <= orig.len(),
            cur < orig.len(),
            damage_stands_for(damage, exact),
            forall|i: int|
                0 <= i < j && i != cur ==> {
                    &&& #[trigger] players@[i].life == after_damage(orig[i].life, exact)
                    &&& players@[i].zones == orig[i].zones
                },
            forall|i: int| (j <= i < orig.len() || i == cur) ==> #[trigger] players@[i] == orig[i],
        decreases orig.len() - j,
    {
        let ghost before = players@;
        if j != cur {
            let l = players[j].life;
            proof {
                lemma_after_damage_stands(l, damage, exact);
            }
            let nl = lose_life(l, damage);
            players[j].life = nl;
            assert(players@[j as int].zones == orig[j as int].zones);
            assert(players@[j as int].life == after_damage(orig[j as int].life, exact));
        }
        assert forall|i: int| 0 <= i < j + 1 && i != cur implies {
            &&& #[trigger] players@[i].life == after_damage(orig[i].life, exact)
            &&& players@[i].zones == orig[i].zones
        } by {
            if i < j {
                assert(players@[i] == before[i]);
            }
        }
        j = j + 1;
    }
}

/// Subtract damage from a life total, saturating at the least `i32`.
pub fn lose_life(life: i32, damage: u64) -> (r: i32)
    requires
        damage < DAMAGE_CAP + 256,
    ensures
        r == after_damage(life, damage as int),
{
    if damage >= DAMAGE_CAP {
        i32::MIN
    } else {
        let v: i64 = life as i64 - damage as i64;
        if v < i32::MIN as i64 {
            i32::MIN
        } else {
            v as i32
        }
    }
}

/// Work out combat: the positions of `bf` destroyed, and the unblocked damage.
/// Attacker or blocker positions past the end of `bf` are skipped.
pub fn resolve_combat(bf: &Vec<Card>, attackers: &Vec<usize>, m: &Vec<(usize, usize)>) -> (r: (
    Vec<usize>,
    u64,
))
    ensures
        forall|j: usize| r.0@.contains(j) <==> dies(bf@, attackers@, m@, j as int),
        damage_stands_for(r.1, unblocked_damage(bf@, attackers@, m@)),
{
    let mut doomed: Vec<usize> = Vec::new();
    let mut damage: u64 = 0;
    let mut k: usize = 0;
    while k < attackers.len()
        invariant
            k <= attackers@.len(),
            forall|j: usize| doomed@.contains(j) <==> dies_upto(bf@, attackers@, m@, k as int, j as int),
            damage_stands_for(damage, unblocked_damage(bf@, attackers@.take(k as int), m@)),
        decreases attackers@.len() - k,
    {
        let ghost before = doomed@;
        let a = attackers[k];
        assert(attackers@.take(k + 1).drop_last() == attackers@.take(k as int));
        proof {
            lemma_unblocked_damage_nonneg(bf@, attackers@.take(k as int), m@);
        }
        if a < bf.len() {
            let ap = power_of(&bf[a]);
            match find_blocker_of(bf.len(), m, a) {
                Some(b) => {
                    proof {
                        lemma_blocker_of_in_range(bf@.len() as int, m@, a);
                    }
                    let kill_blocker = ap >= toughness_of(&bf[b]);
                    let kill_attacker = power_of(&bf[b]) >= toughness_of(&bf[a]);
                    if kill_blocker {
                        doomed.push(b);
                    }
                    let ghost mid2 = doomed@;
                    if kill_attacker {
                        doomed.push(a);
                    }
                    assert forall|j: usize| doomed@.contains(j) <==> (before.contains(j)
                        || kills(bf@, m@, a, j as int)) by {
                        if kill_blocker {
                            lemma_push_contains(before, b, j);
                        }
                        if kill_attacker {
                            lemma_push_contains(mid2, a, j);
                        }
                    }
                },
                None => {
                    if damage < DAMAGE_CAP {
                        damage = damage + ap as u64;
                    }
                },
            }
        }
        assert forall|j: usize| doomed@.contains(j) <==> (before.contains(j) || kills(
            bf@,
            m@,
            a,
            j as int,
        )) by {
            if !(a < bf.len()) || blocker_of(bf@.len() as int, m@, a) is None {
                assert(!kills(bf@, m@, a, j as int));
            }
        }
        assert forall|j: usize| doomed@.contains(j) <==> dies_upto(
            bf@,
            attackers@,
            m@,
            k + 1,
            j as int,
        ) by {
            if dies_upto(bf@, attackers@, m@, k + 1, j as int) {
                let q = choose|q: int| 0 <= q < k + 1 && #[trigger] kills(bf@, m@, attackers@[q], j as int);
                if q < k {
                    assert(dies_upto(bf@, attackers@, m@, k as int, j as int));
                }
            }
            if before.contains(j) {
                assert(dies_upto(bf@, attackers@, m@, k as int, j as int));
                let q = choose|q: int| 0 <= q < k && #[trigger] kills(bf@, m@, attackers@[q], j as int);
                assert(0 <= q < k + 1 && kills(bf@, m@, attackers@[q], j as int));
            }
            if kills(bf@, m@, a, j as int) {
                assert(kills(bf@, m@, attackers@[k as int], j as int));
            }
        }
        k = k + 1;
    }
    assert(attackers@.take(k as int) == attackers@);
    (doomed, damage)
}

/// Only positions of cards, never negative numbers, die.
pub proof fn lemma_dies_nonneg(bf: Seq<Card>, attackers: Seq<usize>, m: Seq<(usize, usize)>, j: int)
    requires
        dies(bf, attackers, m, j),
    ensures
        0 <= j < bf.len(),
{
    let q = choose|q: int| 0 <= q < attackers.len() && #[trigger] kills(bf, m, attackers[q], j);
    assert(kills(bf, m, attackers[q], j));
}

/// The set of positions listed in `v`.
pub open spec fn position_set(v: Seq<usize>) -> Set<int> {
    Set::new(|j: int| 0 <= j <= usize::MAX && v.contains(j as usize))
}

/// The cards of `bf` whose positions are not in `d`, in order.
pub open spec fn survivors(bf: Seq<Card>, d: Set<int>) -> Seq<Card>
    decreases bf.len(),
{
    if bf.len() == 0 {
        seq![]
    } else {
        let r = survivors(bf.drop_last(), d);
        if d.contains(bf.len() - 1) {
            r
        } else {
            r.push(bf.last())
        }
    }
}

/// The cards of `bf` whose positions are in `d`, from the last position to the first.
pub open spec fn casualties(bf: Seq<Card>, d: Set<int>) -> Seq<Card>
    decreases bf.len(),
{
    if bf.len() == 0 {
        seq![]
    } else {
        let r = casualties(bf.drop_last(), d);
        if d.contains(bf.len() - 1) {
            seq![bf.last()] + r
        } else {
            r
        }
    }
}

/// Move the cards of `bf` at the positions in `doomed` to the graveyard, the highest
/// position first; the others keep their order.
pub fn bury(bf: &mut Vec<Card>, graveyard: &mut Vec<Card>, doomed: &Vec<usize>)
    ensures
        final(bf)@ == survivors(old(bf)@, position_set(doomed@)),
        final(graveyard)@ == old(graveyard)@ + casualties(old(bf)@, position_set(doomed@)),
{
    let ghost orig = bf@;
    let ghost g0 = graveyard@;
    let ghost d = position_set(doomed@);
    let mut kept: Vec<Card> = Vec::new();
    while bf.len() > 0
        invariant
            d == position_set(doomed@),
            survivors(bf@, d) + kept@ == survivors(orig, d),
            graveyard@ + casualties(bf@, d) == g0 + casualties(orig, d),
        decreases bf@.len(),
    {
        let ghost b = bf@;
        let ghost kb = kept@;
        let ghost gb = graveyard@;
        let i = bf.len() - 1;
        let dead = contains_position(doomed, i);
        assert(d.contains(i as int) == doomed@.contains(i));
        match bf.pop() {
            Some(card) => {
                assert(bf@ == b.drop_last());
                if dead {
                    graveyard.push(card);
                    assert(graveyard@ + casualties(bf@, d) == gb + casualties(b, d)) by {
                        assert(casualties(b, d) == seq![card] + casualties(bf@, d));
                    }
                } else {
                    kept.insert(0, card);
                    assert(survivors(bf@, d) + kept@ == survivors(b, d) + kb) by {
                        assert(survivors(b, d) == survivors(bf@, d).push(card));
                    }
                }
            },
            None => {},
        }
    }
    assert(survivors(bf@, d) == Seq::<Card>::empty());
    assert(casualties(bf@, d) == Seq::<Card>::empty());
    assert(kept@ == survivors(orig, d));
    *bf = kept;
}

} // verus!
