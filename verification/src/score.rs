//! The score of a hand.
//!
//! An ace counts 1 or 11, a rank above ten counts ten. A hand therefore
//! reaches several totals; its score is the largest of them that does not
//! exceed 21, or the smallest of them when all exceed 21.

use vstd::prelude::*;

verus! {

/// The rank that counts 1 or 11.
pub const ACE: u32 = 1;

/// The total above which a hand is bust.
pub const TARGET: u32 = 21;

/// What a rank adds to a total, the ace taken as 1.
pub open spec fn card_value(card: u32) -> nat {
    if card > 10 {
        10
    } else {
        card as nat
    }
}

/// `total` is one of the totals of `cards`: each ace adds 1 or 11, every
/// other rank adds its value.
pub open spec fn reachable(cards: Seq<u32>, total: int) -> bool
    decreases cards.len(),
{
    if cards.len() == 0 {
        total == 0
    } else if cards.last() == ACE {
        reachable(cards.drop_last(), total - 1) || reachable(cards.drop_last(), total - 11)
    } else {
        reachable(cards.drop_last(), total - card_value(cards.last()))
    }
}

/// `best` is the largest total of `cards` that is at most 21, or, where
/// every total is above 21, the smallest total.
pub open spec fn is_best_total(cards: Seq<u32>, best: int) -> bool {
    &&& reachable(cards, best)
    &&& if exists|t: int| reachable(cards, t) && t <= TARGET {
        best <= TARGET && forall|t: int| reachable(cards, t) && t <= TARGET ==> t <= best
    } else {
        forall|t: int| reachable(cards, t) ==> best <= t
    }
}

/// The total of `cards` with every ace taken as 1.
pub open spec fn low_total(cards: Seq<u32>) -> nat
    decreases cards.len(),
{
    if cards.len() == 0 {
        0
    } else {
        low_total(cards.drop_last()) + card_value(cards.last())
    }
}

/// The number of aces in `cards`.
pub open spec fn ace_count(cards: Seq<u32>) -> nat
    decreases cards.len(),
{
    if cards.len() == 0 {
        0
    } else {
        ace_count(cards.drop_last()) + if cards.last() == ACE {
            1nat
        } else {
            0nat
        }
    }
}

/// The score of a hand: as many aces as fit are lifted from 1 to 11.
pub open spec fn score(cards: Seq<u32>) -> nat {
    let low = low_total(cards);
    let aces = ace_count(cards);
    if low > TARGET {
        low
    } else {
        let room = (TARGET - low) / 10;
        if aces <= room {
            low + 10 * aces
        } else {
            (low + 10 * room) as nat
        }
    }
}

/// The score as a `u32` holds it: exact up to `u32::MAX`, which only a hand
/// of hundreds of millions of cards exceeds.
pub open spec fn score_u32(cards: Seq<u32>) -> u32 {
    if score(cards) <= u32::MAX {
        score(cards) as u32
    } else {
        u32::MAX
    }
}

/// The totals of a hand are its low total plus ten for each ace lifted: they
/// lie ten apart, from the low total up to ten more for every ace.
pub proof fn lemma_reachable_totals(cards: Seq<u32>, total: int)
    ensures
        reachable(cards, total) <==> {
            &&& low_total(cards) <= total <= low_total(cards) + 10 * ace_count(cards)
            &&& (total - low_total(cards)) % 10 == 0
        },
    decreases cards.len(),
{
    if cards.len() > 0 {
        let rest = cards.drop_last();
        if cards.last() == ACE {
            lemma_reachable_totals(rest, total - 1);
            lemma_reachable_totals(rest, total - 11);
        } else {
            lemma_reachable_totals(rest, total - card_value(cards.last()));
        }
    }
}

/// The score is the largest total that is at most 21 where the hand has one,
/// and the smallest total where it has none.
pub proof fn lemma_score_is_best_total(cards: Seq<u32>)
    ensures
        is_best_total(cards, score(cards) as int),
{
    let low = low_total(cards) as int;
    let best = score(cards) as int;
    lemma_reachable_totals(cards, best);
    assert forall|t: int| reachable(cards, t) implies low <= t && (t <= TARGET ==> t <= best) by {
        lemma_reachable_totals(cards, t);
    }
    if low <= TARGET {
        lemma_reachable_totals(cards, low);
        assert(reachable(cards, low) && low <= TARGET);
    }
}

/// A hand has one best total only.
pub proof fn lemma_best_total_unique(cards: Seq<u32>, a: int, b: int)
    requires
        is_best_total(cards, a),
        is_best_total(cards, b),
    ensures
        a == b,
{
}

/// Taking a card out of a hand takes its value out of the low total, and
/// one ace out of the count where the card is an ace.
proof fn lemma_remove_card(cards: Seq<u32>, at: int)
    requires
        0 <= at < cards.len(),
    ensures
        low_total(cards) == low_total(cards.remove(at)) + card_value(cards[at]),
        ace_count(cards) == ace_count(cards.remove(at)) + if cards[at] == ACE {
            1nat
        } else {
            0nat
        },
    decreases cards.len(),
{
    if at == cards.len() - 1 {
        assert(cards.remove(at) == cards.drop_last());
    } else {
        lemma_remove_card(cards.drop_last(), at);
        assert(cards.remove(at).drop_last() == cards.drop_last().remove(at));
        assert(cards.remove(at).last() == cards.last());
    }
}

/// Two hands of the same cards have the same low total and as many aces.
proof fn lemma_same_cards(a: Seq<u32>, b: Seq<u32>)
    requires
        a.to_multiset() == b.to_multiset(),
    ensures
        low_total(a) == low_total(b),
        ace_count(a) == ace_count(b),
    decreases a.len(),
{
    broadcast use vstd::seq_lib::group_to_multiset_ensures;

    assert(a.len() == a.to_multiset().len() && b.len() == b.to_multiset().len());
    if a.len() > 0 {
        let card = a.last();
        assert(a.contains(card));
        assert(b.to_multiset().count(card) > 0);
        assert(b.contains(card));
        let at = choose|at: int| 0 <= at < b.len() && b[at] == card;
        assert(a.drop_last() == a.remove(a.len() - 1));
        assert(a.remove(a.len() - 1).to_multiset() == a.to_multiset().remove(card));
        assert(b.remove(at).to_multiset() == b.to_multiset().remove(card));
        lemma_same_cards(a.drop_last(), b.remove(at));
        lemma_remove_card(b, at);
    }
}

/// The score does not depend on the order of the cards: two hands that hold
/// the same cards, in whatever order, have the same score. Only the number
/// of aces and the sum of the other cards enter it.
pub proof fn lemma_score_ignores_order(a: Seq<u32>, b: Seq<u32>)
    requires
        a.to_multiset() == b.to_multiset(),
    ensures
        score(a) == score(b),
        score_u32(a) == score_u32(b),
{
    lemma_same_cards(a, b);
}

/// Every total of a hand lies between 0 and eleven per card.
pub proof fn lemma_totals_bounded(cards: Seq<u32>, total: int)
    requires
        reachable(cards, total),
    ensures
        0 <= total <= 11 * cards.len(),
    decreases cards.len(),
{
    if cards.len() > 0 {
        if cards.last() == ACE {
            if reachable(cards.drop_last(), total - 1) {
                lemma_totals_bounded(cards.drop_last(), total - 1);
            } else {
                lemma_totals_bounded(cards.drop_last(), total - 11);
            }
        } else {
            lemma_totals_bounded(cards.drop_last(), total - card_value(cards.last()));
        }
    }
}

/// `next` is one of the totals that the card `card` makes of the total
/// `total`.
pub open spec fn follows(card: u32, total: int, next: int) -> bool {
    if card == ACE {
        next == total + 1 || next == total + 11
    } else {
        next == total + card_value(card)
    }
}

/// Adds `total` to `totals` unless it is there already.
fn note_total(totals: &mut Vec<u128>, total: u128)
    ensures
        forall|t: u128| final(totals)@.contains(t) <==> old(totals)@.contains(t) || t == total,
{
    let mut at: usize = 0;
    while at < totals.len()
        invariant
            at <= totals.len(),
            *totals == *old(totals),
            forall|k: int| 0 <= k < at ==> totals[k] != total,
        decreases totals.len() - at,
    {
        if totals[at] == total {
            assert(totals@.contains(total));
            return ;
        }
        at += 1;
    }
    let ghost before = totals@;
    totals.push(total);
    assert forall|t: u128| before.contains(t) || t == total implies totals@.contains(t) by {
        if before.contains(t) {
            let k = choose|k: int| 0 <= k < before.len() && before[k] == t;
            assert(totals@[k] == t);
        } else {
            assert(totals@[before.len() as int] == t);
        }
    }
    assert forall|t: u128| totals@.contains(t) implies before.contains(t) || t == total by {
        let k = choose|k: int| 0 <= k < totals@.len() && totals@[k] == t;
        if k < before.len() {
            assert(before[k] == t);
        }
    }
    assert(before == old(totals)@);
    assert(forall|t: u128| totals@.contains(t) <==> old(totals)@.contains(t) || t == total);
}

/// The totals that `card` makes of the totals of a hand, which are the
/// totals of the hand with `card` added.
fn fork_totals(totals: &Vec<u128>, card: u32, Ghost(hand): Ghost<Seq<u32>>) -> (next: Vec<u128>)
    requires
        hand.len() < usize::MAX,
        forall|t: u128| totals@.contains(t) <==> reachable(hand, t as int),
    ensures
        forall|t: u128| next@.contains(t) <==> reachable(hand.push(card), t as int),
{
    let mut next: Vec<u128> = Vec::new();
    let mut at: usize = 0;
    while at < totals.len()
        invariant
            at <= totals.len(),
            hand.len() < usize::MAX,
            forall|t: u128| totals@.contains(t) <==> reachable(hand, t as int),
            forall|t: u128|
                next@.contains(t) <==> exists|k: int|
                    0 <= k < at && follows(card, #[trigger] totals[k] as int, t as int),
        decreases totals.len() - at,
    {
        let total = totals[at];
        proof {
            assert(totals@.contains(total));
            lemma_totals_bounded(hand, total as int);
        }
        let ghost before = next@;
        if card == ACE {
            note_total(&mut next, total + 1);
            note_total(&mut next, total + 11);
        } else if card > 10 {
            note_total(&mut next, total + 10);
        } else {
            note_total(&mut next, total + card as u128);
        }
        proof {
            assert forall|t: u128| next@.contains(t) implies exists|k: int|
                0 <= k < at + 1 && follows(card, #[trigger] totals[k] as int, t as int) by {
                if before.contains(t) {
                    let k = choose|k: int|
                        0 <= k < at && follows(card, #[trigger] totals[k] as int, t as int);
                    assert(0 <= k < at + 1 && follows(card, totals[k] as int, t as int));
                } else {
                    assert(follows(card, totals[at as int] as int, t as int));
                }
            }
            assert forall|t: u128|
                (exists|k: int|
                    0 <= k < at + 1 && follows(
                        card,
                        #[trigger] totals[k] as int,
                        t as int,
                    )) implies next@.contains(t) by {
                let k = choose|k: int|
                    0 <= k < at + 1 && follows(card, #[trigger] totals[k] as int, t as int);
                if k < at {
                    assert(before.contains(t));
                }
            }
        }
        at += 1;
    }
    proof {
        let longer = hand.push(card);
        assert(longer.drop_last() == hand);
        assert(longer.last() == card);
        assert forall|t: u128| next@.contains(t) implies reachable(longer, t as int) by {
            let k = choose|k: int|
                0 <= k < at && follows(card, #[trigger] totals[k] as int, t as int);
            assert(totals@.contains(totals[k]));
            assert(reachable(hand, totals[k] as int));
        }
        assert forall|t: u128| reachable(longer, t as int) implies next@.contains(t) by {
            let from: int = if card == ACE {
                if reachable(hand, t - 1) {
                    t - 1
                } else {
                    t - 11
                }
            } else {
                t - card_value(card)
            };
            assert(reachable(hand, from));
            lemma_totals_bounded(hand, from);
            assert(reachable(hand, (from as u128) as int));
            assert(totals@.contains(from as u128));
            let k = choose|k: int| 0 <= k < totals.len() && totals[k] == from as u128;
            assert(follows(card, totals[k] as int, t as int));
        }
    }
    next
}

impl crate::engine::BlackJack {
    /// The score of `cards`.
    ///
    /// All the totals that the hand reaches are kept, each ace doubling them
    /// into one that counts it 1 and one that counts it 11; the score is then
    /// picked among them.
    pub fn compute_score(cards: &[u32]) -> (result: u32)
        ensures
            result == score_u32(cards@),
    {
        let mut totals: Vec<u128> = Vec::new();
        totals.push(0);
        assert(totals@[0] == 0);
        let mut dealt: usize = 0;
        while dealt < cards.len()
            invariant
                dealt <= cards.len(),
                forall|t: u128| totals@.contains(t) <==> reachable(cards@.take(dealt as int), t as int),
            decreases cards.len() - dealt,
        {
            let next = fork_totals(&totals, cards[dealt], Ghost(cards@.take(dealt as int)));
            assert(cards@.take(dealt as int).push(cards[dealt as int]) == cards@.take(dealt + 1));
            totals = next;
            dealt += 1;
        }
        assert(cards@.take(dealt as int) == cards@);
        proof {
            lemma_score_is_best_total(cards@);
            lemma_totals_bounded(cards@, score(cards@) as int);
            assert(totals@.contains(score(cards@) as u128));
        }
        let mut smallest: u128 = totals[0];
        let mut fitting: Option<u128> = if totals[0] <= 21 {
            Some(totals[0])
        } else {
            None
        };
        let mut at: usize = 1;
        while at < totals.len()
            invariant
                1 <= at <= totals.len(),
                totals@.contains(smallest),
                forall|k: int| 0 <= k < at ==> smallest <= totals[k],
                fitting matches Some(f) ==> f <= 21 && totals@.contains(f),
                forall|k: int| 0 <= k < at && totals[k] <= 21 ==> fitting is Some && totals[k] <= fitting->0,
            decreases totals.len() - at,
        {
            let total = totals[at];
            if total < smallest {
                smallest = total;
            }
            if total <= 21 {
                fitting = match fitting {
                    Some(f) if f >= total => Some(f),
                    _ => Some(total),
                };
            }
            at += 1;
        }
        let best: u128 = match fitting {
            Some(f) => f,
            None => smallest,
        };
        proof {
            assert forall|t: int| reachable(cards@, t) implies {
                &&& smallest <= t
                &&& t <= TARGET ==> fitting is Some && t <= fitting->0
            } by {
                lemma_totals_bounded(cards@, t);
                assert(totals@.contains(t as u128));
                let k = choose|k: int| 0 <= k < totals.len() && totals[k] == t as u128;
                assert(smallest <= totals[k]);
            }
            assert(is_best_total(cards@, best as int));
            lemma_best_total_unique(cards@, best as int, score(cards@) as int);
        }
        if best > u32::MAX as u128 {
            u32::MAX
        } else {
            best as u32
        }
    }
}

} // verus!
