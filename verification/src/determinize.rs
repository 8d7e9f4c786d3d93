//! Sampling a hidden hand that agrees with its hints.
//!
//! The slots are filled in order, each from the cards that its hint admits
//! among those still in the pile. The draws are weighed, and the weight of the
//! hand is the product of the weights of its draws.

use crate::card::{Card, NO_CARD};
use crate::collection::{
    filled, held, lemma_filled_grows, lemma_held_grows, lemma_sum_bounds, lemma_sum_update,
    restricted, sum_counts, CardCollection,
};
use crate::hint::Hint;
use crate::preservation::{lemma_filled_update, lemma_held_update, lemma_live_bounds};
use crate::ratio::Ratio;
use crate::state::live;
use rand::rngs::StdRng;
use vstd::prelude::*;

verus! {

/// How often a walk over the slots is started again after it ran into a slot
/// for which no card was left.
pub const MAX_RESTARTS: u32 = 100_000;

/// The pile `deck` without the cards in the first `n` slots of `hand`.
pub open spec fn left_after(deck: Seq<u8>, hand: Seq<Card>, n: int) -> Seq<u8> {
    Seq::new(25, |id: int| (deck[id] - held(hand, id, n)) as u8)
}

/// Every slot with a live hint holds a card that the hint admits, and every
/// other slot is empty.
pub open spec fn hand_agrees(hand: Seq<Card>, hints: Seq<Hint>) -> bool {
    &&& hand.len() == 5
    &&& hints.len() == 5
    &&& forall|i: int|
        0 <= i < 5 ==> if hints[i].is_live() {
            hints[i].admits(#[trigger] hand[i])
        } else {
            hand[i].is_blank()
        }
}

/// The numerator of the weight of the draw for slot `i`: the copies of the
/// drawn card that were left in the pile once it was taken.
pub open spec fn draw_num(deck: Seq<u8>, hand: Seq<Card>, i: int) -> int {
    left_after(deck, hand, i)[hand[i].id as int] - 1
}

/// The denominator of the weight of the draw for slot `i`: one more than the
/// number of cards that the slot's hint admitted in the pile.
pub open spec fn draw_den(deck: Seq<u8>, hints: Seq<Hint>, hand: Seq<Card>, i: int) -> int {
    sum_counts(restricted(left_after(deck, hand, i), hints[i]), 25) + 1
}

/// The numerator of the weight of the first `n` slots: the product of those
/// of the draws.
pub open spec fn weight_num(deck: Seq<u8>, hints: Seq<Hint>, hand: Seq<Card>, n: int) -> int
    decreases n,
{
    if n <= 0 {
        1
    } else if hints[n - 1].is_live() {
        weight_num(deck, hints, hand, n - 1) * draw_num(deck, hand, n - 1)
    } else {
        weight_num(deck, hints, hand, n - 1)
    }
}

/// The denominator of the weight of the first `n` slots: the product of those
/// of the draws.
pub open spec fn weight_den(deck: Seq<u8>, hints: Seq<Hint>, hand: Seq<Card>, n: int) -> int
    decreases n,
{
    if n <= 0 {
        1
    } else if hints[n - 1].is_live() {
        weight_den(deck, hints, hand, n - 1) * draw_den(deck, hints, hand, n - 1)
    } else {
        weight_den(deck, hints, hand, n - 1)
    }
}

/// Every live hint admits more cards of the pile than there are live hints
/// before it: whatever the earlier slots draw, a card is left for it.
pub open spec fn surely_fillable(pile: Seq<u8>, hints: Seq<Hint>) -> bool {
    forall|i: int|
        0 <= i < 5 && (#[trigger] hints[i]).is_live() ==> sum_counts(
            restricted(pile, hints[i]),
            25,
        ) > live(hints, i)
}

/// 256 to the power `n`.
pub open spec fn cap(n: int) -> int
    decreases n,
{
    if n <= 0 {
        1
    } else {
        256 * cap(n - 1)
    }
}

/// What a later slot holds does not change the pile left for an earlier one,
/// nor the weight of the earlier slots.
pub proof fn lemma_later_slot(
    deck: Seq<u8>,
    hints: Seq<Hint>,
    hand: Seq<Card>,
    slot: int,
    card: Card,
    n: int,
)
    requires
        0 <= n <= slot < hand.len(),
    ensures
        left_after(deck, hand.update(slot, card), n) == left_after(deck, hand, n),
        weight_num(deck, hints, hand.update(slot, card), n) == weight_num(deck, hints, hand, n),
        weight_den(deck, hints, hand.update(slot, card), n) == weight_den(deck, hints, hand, n),
    decreases n,
{
    let other = hand.update(slot, card);
    assert(left_after(deck, other, n) =~= left_after(deck, hand, n)) by {
        assert forall|id: int| 0 <= id < 25 implies held(other, id, n) == held(hand, id, n) by {
            lemma_held_update(hand, slot, card, id, n);
        }
    }
    if n > 0 {
        lemma_later_slot(deck, hints, hand, slot, card, n - 1);
    }
}

/// Taking one card out of a pile takes at most one card from those that a
/// hint admits.
pub proof fn lemma_matching_after_draw(pile: Seq<u8>, id: int, hint: Hint)
    requires
        pile.len() == 25,
        0 <= id < 25,
        pile[id] > 0,
    ensures
        sum_counts(restricted(pile.update(id, (pile[id] - 1) as u8), hint), 25) >= sum_counts(
            restricted(pile, hint),
            25,
        ) - 1,
{
    let smaller = pile.update(id, (pile[id] - 1) as u8);
    if hint.admits(Card { id: id as u8 }) {
        assert(restricted(smaller, hint) =~= restricted(pile, hint).update(
            id,
            (pile[id] - 1) as u8,
        ));
        lemma_sum_update(restricted(pile, hint), id, (pile[id] - 1) as u8, 25);
    } else {
        assert(restricted(smaller, hint) =~= restricted(pile, hint));
    }
}

/// The product of two numbers within their bounds is within the product of
/// the bounds, and a product of fractions that are at most one is at most one.
pub proof fn lemma_product_bounds(a: int, b: int, c: int, d: int, bound: int)
    requires
        0 <= a <= c <= bound,
        0 <= b <= d <= 256,
        1 <= c,
        1 <= d,
    ensures
        0 <= a * b <= c * d <= 256 * bound,
        1 <= c * d,
{
    assert(0 <= a * b <= c * d <= 256 * bound && 1 <= c * d) by (nonlinear_arith)
        requires
            0 <= a <= c <= bound,
            0 <= b <= d <= 256,
            1 <= c,
            1 <= d,
    ;
}

/// The hand of five empty slots.
pub open spec fn no_hand() -> Seq<Card> {
    Seq::new(5, |i: int| Card { id: NO_CARD })
}

/// A walk has passed the first `i` slots: the slots with a live hint among
/// them hold cards that their hints admit, the other slots are empty, `pile`
/// is what the cards taken have left of `start`, and `prob` is the weight of
/// the draws so far.
pub open spec fn walking(
    start: Seq<u8>,
    hints: Seq<Hint>,
    pile: Seq<u8>,
    cards: Seq<Card>,
    prob: Ratio,
    i: int,
) -> bool {
    &&& start.len() == 25
    &&& hints.len() == 5
    &&& cards.len() == 5
    &&& forall|j: int| i <= j < 5 ==> (#[trigger] cards[j]).is_blank()
    &&& forall|j: int|
        0 <= j < i ==> if hints[j].is_live() {
            hints[j].admits(#[trigger] cards[j])
        } else {
            cards[j].is_blank()
        }
    &&& forall|id: int| 0 <= id < 25 ==> held(cards, id, i) <= #[trigger] start[id]
    &&& pile == left_after(start, cards, i)
    &&& filled(cards, i) == live(hints, i)
    &&& prob.num == weight_num(start, hints, cards, i)
    &&& prob.den == weight_den(start, hints, cards, i)
    &&& prob.num <= prob.den <= cap(i)
    &&& prob.den >= 1
    &&& forall|j: int|
        0 <= j < 5 ==> sum_counts(restricted(pile, #[trigger] hints[j]), 25) >= sum_counts(
            restricted(start, hints[j]),
            25,
        ) - live(hints, i)
}

/// A walk can run into a slot for which no card is left: there is a way to
/// fill the slots before some live slot, each from the cards that its hint
/// admits among those that the slots before it have left, after which the
/// pile holds no card that this slot's hint admits.
pub open spec fn dead_end(pile: Seq<u8>, hints: Seq<Hint>) -> bool {
    exists|cards: Seq<Card>, prob: Ratio, i: int|
        {
            &&& 0 <= i < 5
            &&& hints[i].is_live()
            &&& #[trigger] walking(pile, hints, left_after(pile, cards, i), cards, prob, i)
            &&& sum_counts(restricted(left_after(pile, cards, i), hints[i]), 25) == 0
        }
}

/// The identity of the copy at position `n` of a pile laid out by identity,
/// found by looking from the identity `id` on.
pub open spec fn pick_from(counts: Seq<u8>, n: int, id: int) -> int
    decreases counts.len() - id,
{
    if id < 0 || id >= counts.len() {
        counts.len() as int
    } else if n < sum_counts(counts, id + 1) {
        id
    } else {
        pick_from(counts, n, id + 1)
    }
}

/// The identity of the copy at position `n` of a pile laid out by identity,
/// lowest first.
pub open spec fn picked(counts: Seq<u8>, n: int) -> int {
    pick_from(counts, n, 0)
}

/// The hand that a walk holds after the first `n` slots, where the draw for
/// slot `i` takes the copy at position `positions[i]` among the cards that
/// the slot's hint admits; `None` where a live slot among them found no
/// card that its hint admits on the pile left by the slots before it.
pub open spec fn walk(pile: Seq<u8>, hints: Seq<Hint>, positions: Seq<u8>, n: int) -> Option<
    Seq<Card>,
>
    decreases n,
{
    if n <= 0 {
        Some(no_hand())
    } else {
        match walk(pile, hints, positions, n - 1) {
            None => None,
            Some(hand) => if !hints[n - 1].is_live() {
                Some(hand)
            } else if sum_counts(restricted(left_after(pile, hand, n - 1), hints[n - 1]), 25)
                == 0 {
                None
            } else {
                Some(
                    hand.update(
                        n - 1,
                        Card {
                            id: picked(
                                restricted(left_after(pile, hand, n - 1), hints[n - 1]),
                                positions[n - 1] as int,
                            ) as u8,
                        },
                    ),
                )
            },
        }
    }
}

/// Every position is one of a card: below the number of cards that the
/// hint of its slot admits when the walk comes to it.
pub open spec fn positions_fit(pile: Seq<u8>, hints: Seq<Hint>, positions: Seq<u8>) -> bool {
    forall|i: int|
        0 <= i < 5 && hints[i].is_live() && (#[trigger] walk(pile, hints, positions, i)) is Some
            && sum_counts(
            restricted(left_after(pile, walk(pile, hints, positions, i)->0, i), hints[i]),
            25,
        ) > 0 ==> positions[i] < sum_counts(
            restricted(left_after(pile, walk(pile, hints, positions, i)->0, i), hints[i]),
            25,
        )
}

/// The copy at a position has the identity that `picked` names.
pub proof fn lemma_picked(counts: Seq<u8>, n: int, id: int, from: int)
    requires
        crate::collection::lies_at(counts, n, id),
        0 <= from <= id,
    ensures
        pick_from(counts, n, from) == id,
    decreases id - from,
{
    if from < id {
        lemma_sum_bounds(counts, from, id);
        lemma_picked(counts, n, id, from + 1);
    }
}

/// A walk that has not set out yet.
pub proof fn lemma_walk_start(start: Seq<u8>, hints: Seq<Hint>)
    requires
        start.len() == 25,
        hints.len() == 5,
    ensures
        walking(start, hints, start, no_hand(), Ratio { num: 1, den: 1 }, 0),
{
    assert(start =~= left_after(start, no_hand(), 0));
}

/// A walk passes a slot without a live hint and leaves it empty.
pub proof fn lemma_walk_skips(
    start: Seq<u8>,
    hints: Seq<Hint>,
    pile: Seq<u8>,
    cards: Seq<Card>,
    prob: Ratio,
    i: int,
)
    requires
        walking(start, hints, pile, cards, prob, i),
        0 <= i < 5,
        !hints[i].is_live(),
    ensures
        walking(start, hints, pile, cards, prob, i + 1),
        filled(cards, i + 1) == filled(cards, i),
{
    assert(cards[i].is_blank());
    assert forall|id: int| 0 <= id < 25 implies held(cards, id, i + 1) == held(cards, id, i) by {}
    assert(pile =~= left_after(start, cards, i + 1));
    lemma_cap_positive(i);
    assert forall|id: int| 0 <= id < 25 implies held(cards, id, i + 1) <= #[trigger] start[id] by {
        assert(held(cards, id, i) <= start[id]);
    }
}

/// A walk takes a card for a slot with a live hint: one of those that the
/// hint admits on the pile. The weight of the draw goes into the product.
pub proof fn lemma_walk_takes(
    start: Seq<u8>,
    hints: Seq<Hint>,
    pile: Seq<u8>,
    cards: Seq<Card>,
    prob: Ratio,
    i: int,
    card: Card,
    p: Ratio,
)
    requires
        walking(start, hints, pile, cards, prob, i),
        0 <= i < 5,
        hints[i].is_live(),
        hints[i].admits(card),
        pile[card.id as int] > 0,
        p.num == pile[card.id as int] - 1,
        p.den == sum_counts(restricted(pile, hints[i]), 25) + 1,
        p.num < p.den <= 256,
    ensures
        prob.num * p.num <= u64::MAX,
        prob.den * p.den <= u64::MAX,
        walking(
            start,
            hints,
            pile.update(card.id as int, (pile[card.id as int] - 1) as u8),
            cards.update(i, card),
            Ratio { num: (prob.num * p.num) as u64, den: (prob.den * p.den) as u64 },
            i + 1,
        ),
        filled(cards.update(i, card), i + 1) == filled(cards, i) + 1,
{
    let id = card.id as int;
    let taken = cards.update(i, card);
    let left = pile.update(id, (pile[id] - 1) as u8);
    lemma_live_bounds(hints, i);
    lemma_product_bounds(prob.num as int, p.num as int, prob.den as int, p.den as int, cap(i));
    assert(cap(i + 1) <= 0x100_0000_0000) by {
        reveal_with_fuel(cap, 6);
    }
    lemma_later_slot(start, hints, cards, i, card, i);
    lemma_filled_update(cards, i, card, i + 1);
    lemma_filled_update(cards, i, card, i);
    assert forall|other: int| 0 <= other < 25 implies 0 <= held(cards, other, i)
        && #[trigger] pile[other] == start[other] - held(cards, other, i) by {
        lemma_held_grows(cards, other, 0, i);
        assert(held(cards, other, i) <= start[other]);
    }
    assert forall|other: int| 0 <= other < 25 implies held(taken, other, i + 1) == held(
        cards,
        other,
        i,
    ) + if other == id {
        1int
    } else {
        0int
    } by {
        lemma_held_update(cards, i, card, other, i);
        lemma_held_update(cards, i, card, other, i + 1);
    }
    assert forall|other: int| 0 <= other < 25 implies #[trigger] left[other] == left_after(
        start,
        taken,
        i + 1,
    )[other] by {
        assert(pile[other] == start[other] - held(cards, other, i));
    }
    assert(left =~= left_after(start, taken, i + 1));
    assert forall|other: int| 0 <= other < 25 implies held(taken, other, i + 1)
        <= #[trigger] start[other] by {
        assert(pile[other] == start[other] - held(cards, other, i));
    }
    assert(left_after(start, taken, i) == pile);
    assert forall|j: int| 0 <= j < 5 implies sum_counts(
        restricted(left, #[trigger] hints[j]),
        25,
    ) >= sum_counts(restricted(start, hints[j]), 25) - live(hints, i + 1) by {
        lemma_matching_after_draw(pile, id, hints[j]);
    }
    assert forall|j: int| 0 <= j < i + 1 implies if hints[j].is_live() {
        hints[j].admits(#[trigger] taken[j])
    } else {
        taken[j].is_blank()
    } by {
        if j < i {
            assert(if hints[j].is_live() {
                hints[j].admits(cards[j])
            } else {
                cards[j].is_blank()
            });
        }
    }
    assert forall|j: int| i + 1 <= j < 5 implies (#[trigger] taken[j]).is_blank() by {
        assert(cards[j].is_blank());
    }
}

/// A walk that stands before a live slot whose hint admits no card of the
/// pile has run into a dead end; had the cards taken so far gone back, the
/// pile would be as at the start.
pub proof fn lemma_walk_stops(
    start: Seq<u8>,
    hints: Seq<Hint>,
    pile: Seq<u8>,
    cards: Seq<Card>,
    prob: Ratio,
    i: int,
)
    requires
        walking(start, hints, pile, cards, prob, i),
        0 <= i < 5,
        hints[i].is_live(),
        sum_counts(restricted(pile, hints[i]), 25) == 0,
    ensures
        dead_end(start, hints),
        !surely_fillable(start, hints),
        filled(cards, 5) == filled(cards, i),
        forall|k: int| 0 <= k < 5 ==> cards[k].is_blank() || (#[trigger] cards[k]).is_card(),
        forall|id: int| 0 <= id < 25 ==> #[trigger] pile[id] + held(cards, id, 5) == start[id],
{
    lemma_live_bounds(hints, i);
    lemma_filled_blank_tail(cards, i, 5);
    assert forall|k: int| 0 <= k < 5 implies cards[k].is_blank() || (#[trigger] cards[k]).is_card() by {
        if k < i {
            assert(if hints[k].is_live() {
                hints[k].admits(cards[k])
            } else {
                cards[k].is_blank()
            });
        }
    }
    assert forall|id: int| 0 <= id < 25 implies #[trigger] pile[id] + held(cards, id, 5)
        == start[id] by {
        lemma_held_blank_tail(cards, id, i, 5);
        lemma_held_grows(cards, id, 0, i);
        assert(held(cards, id, i) <= start[id]);
    }
    assert(sum_counts(restricted(pile, hints[i]), 25) >= sum_counts(
        restricted(start, hints[i]),
        25,
    ) - live(hints, i));
}

/// A walk that has passed all five slots holds a hand that agrees with the
/// hints.
pub proof fn lemma_walk_done(
    start: Seq<u8>,
    hints: Seq<Hint>,
    pile: Seq<u8>,
    cards: Seq<Card>,
    prob: Ratio,
)
    requires
        walking(start, hints, pile, cards, prob, 5),
    ensures
        hand_agrees(cards, hints),
        forall|id: int| 0 <= id < 25 ==> held(cards, id, 5) <= #[trigger] start[id],
{
    assert forall|i: int| 0 <= i < 5 implies if hints[i].is_live() {
        hints[i].admits(#[trigger] cards[i])
    } else {
        cards[i].is_blank()
    } by {}
}

/// Once a walk has run into a dead end, it stays there.
pub proof fn lemma_walk_none_stays(
    pile: Seq<u8>,
    hints: Seq<Hint>,
    positions: Seq<u8>,
    k: int,
    n: int,
)
    requires
        0 <= k <= n,
        walk(pile, hints, positions, k) is None,
    ensures
        walk(pile, hints, positions, n) is None,
    decreases n,
{
    if k < n {
        lemma_walk_none_stays(pile, hints, positions, k, n - 1);
    }
}

/// Walks over the slots once. Each slot with a live hint takes one of the
/// cards that its hint admits, each copy in the pile being as likely as any
/// other; the other slots stay empty. Where a slot finds no card the walk
/// gives up, and the cards taken so far go back to the pile.
pub fn determinize_once(deck: &mut CardCollection, hints: &[Hint; 5], rng: &mut StdRng) -> (sampled:
    Option<([Card; 5], Ratio)>)
    requires
        old(deck).wf(),
    ensures
        final(deck).wf(),
        sampled is None ==> final(deck)@ == old(deck)@ && final(deck).total == old(deck).total,
        sampled is None ==> dead_end(old(deck)@, hints@),
        sampled matches Some((cards, weight)) ==> {
            &&& hand_agrees(cards@, hints@)
            &&& forall|id: int| 0 <= id < 25 ==> held(cards@, id, 5) <= #[trigger] old(deck)@[id]
            &&& final(deck)@ == left_after(old(deck)@, cards@, 5)
            &&& final(deck).total == old(deck).total - filled(cards@, 5)
            &&& weight.num == weight_num(old(deck)@, hints@, cards@, 5)
            &&& weight.den == weight_den(old(deck)@, hints@, cards@, 5)
            &&& weight.num <= weight.den
            &&& weight.den >= 1
        },
        surely_fillable(old(deck)@, hints@) ==> sampled is Some,
{
    let ghost start = deck@;
    let mut cards = [Card::none();5];
    let mut prob = Ratio::one();
    let mut i: usize = 0;
    proof {
        lemma_walk_start(start, hints@);
        assert(cards@ =~= no_hand());
    }
    while i < 5
        invariant
            i <= 5,
            start == old(deck)@,
            deck.wf(),
            walking(start, hints@, deck@, cards@, prob, i as int),
            deck.total == old(deck).total - filled(cards@, i as int),
        decreases 5 - i,
    {
        let ghost before = cards@;
        let ghost pile = deck@;
        if hints[i].is_some() {
            match deck.pop_match(&hints[i], rng) {
                Some((card, p)) => {
                    proof {
                        lemma_walk_takes(start, hints@, pile, before, prob, i as int, card, p);
                    }
                    cards[i] = card;
                    prob = prob.times(&p);
                },
                None => {
                    // there are no matching cards: the cards taken so far
                    // go back to the pile
                    proof {
                        lemma_walk_stops(start, hints@, pile, before, prob, i as int);
                        lemma_filled_grows(before, i as int, 5);
                    }
                    deck.add_hand(&cards);
                    assert(deck@ =~= old(deck)@);
                    return None;
                },
            }
        } else {
            proof {
                lemma_walk_skips(start, hints@, pile, before, prob, i as int);
            }
        }
        i += 1;
    }
    proof {
        lemma_walk_done(start, hints@, deck@, cards@, prob);
    }
    Some((cards, prob))
}

/// Walks over the slots once, with the draws given: the draw for slot `i`
/// takes the copy at position `positions[i]` among the cards that the hint
/// of the slot admits, laid out by identity. `None` exactly when a slot
/// with a live hint finds no card that its hint admits on the pile left by
/// the slots before it; the cards taken so far then go back to the pile.
pub fn determinize_at(
    deck: &mut CardCollection,
    hints: &[Hint; 5],
    positions: &[u8; 5],
) -> (sampled: Option<([Card; 5], Ratio)>)
    requires
        old(deck).wf(),
        positions_fit(old(deck)@, hints@, positions@),
    ensures
        final(deck).wf(),
        sampled is None <==> walk(old(deck)@, hints@, positions@, 5) is None,
        sampled is None ==> final(deck)@ == old(deck)@ && final(deck).total == old(deck).total,
        sampled is None ==> dead_end(old(deck)@, hints@),
        sampled matches Some((cards, weight)) ==> {
            &&& walk(old(deck)@, hints@, positions@, 5) == Some(cards@)
            &&& hand_agrees(cards@, hints@)
            &&& forall|id: int| 0 <= id < 25 ==> held(cards@, id, 5) <= #[trigger] old(deck)@[id]
            &&& final(deck)@ == left_after(old(deck)@, cards@, 5)
            &&& final(deck).total == old(deck).total - filled(cards@, 5)
            &&& weight.num == weight_num(old(deck)@, hints@, cards@, 5)
            &&& weight.den == weight_den(old(deck)@, hints@, cards@, 5)
            &&& weight.num <= weight.den
            &&& weight.den >= 1
        },
{
    let ghost start = deck@;
    let mut cards = [Card::none();5];
    let mut prob = Ratio::one();
    let mut i: usize = 0;
    proof {
        lemma_walk_start(start, hints@);
        assert(cards@ =~= no_hand());
    }
    while i < 5
        invariant
            i <= 5,
            start == old(deck)@,
            deck.wf(),
            positions_fit(start, hints@, positions@),
            walking(start, hints@, deck@, cards@, prob, i as int),
            walk(start, hints@, positions@, i as int) == Some(cards@),
            deck.total == old(deck).total - filled(cards@, i as int),
        decreases 5 - i,
    {
        let ghost before = cards@;
        let ghost pile = deck@;
        if hints[i].is_some() {
            let admitted = deck.matching(&hints[i]);
            if admitted.total == 0 {
                proof {
                    lemma_walk_stops(start, hints@, pile, before, prob, i as int);
                    lemma_filled_grows(before, i as int, 5);
                    assert(walk(start, hints@, positions@, i as int + 1) is None);
                    lemma_walk_none_stays(start, hints@, positions@, i as int + 1, 5);
                }
                deck.add_hand(&cards);
                assert(deck@ =~= old(deck)@);
                return None;
            }
            let (card, p) = deck.pop_match_nth(&hints[i], positions[i]);
            proof {
                lemma_picked(
                    restricted(pile, hints@[i as int]),
                    positions@[i as int] as int,
                    card.id as int,
                    0,
                );
                lemma_walk_takes(start, hints@, pile, before, prob, i as int, card, p);
            }
            cards[i] = card;
            prob = prob.times(&p);
        } else {
            proof {
                lemma_walk_skips(start, hints@, pile, before, prob, i as int);
            }
        }
        i += 1;
    }
    proof {
        lemma_walk_done(start, hints@, deck@, cards@, prob);
    }
    Some((cards, prob))
}

/// Samples a hand for the hints: walks over the slots, and starts again
/// whenever a slot finds no card, up to `MAX_RESTARTS` times. `None` when
/// every walk gave up, which happens only where a walk can run into a slot
/// for which no card is left.
pub fn determinize_hints(
    deck: &mut CardCollection,
    hints: &[Hint; 5],
    rng: &mut StdRng,
) -> (sampled: Option<([Card; 5], Ratio)>)
    requires
        old(deck).wf(),
    ensures
        final(deck).wf(),
        sampled is None ==> final(deck)@ == old(deck)@ && final(deck).total == old(deck).total,
        sampled is None ==> dead_end(old(deck)@, hints@),
        sampled matches Some((cards, weight)) ==> {
            &&& hand_agrees(cards@, hints@)
            &&& forall|id: int| 0 <= id < 25 ==> held(cards@, id, 5) <= #[trigger] old(deck)@[id]
            &&& final(deck)@ == left_after(old(deck)@, cards@, 5)
            &&& final(deck).total == old(deck).total - filled(cards@, 5)
            &&& weight.num == weight_num(old(deck)@, hints@, cards@, 5)
            &&& weight.den == weight_den(old(deck)@, hints@, cards@, 5)
            &&& weight.num <= weight.den
            &&& weight.den >= 1
        },
        surely_fillable(old(deck)@, hints@) ==> sampled is Some,
{
    let mut restarts_left: u32 = MAX_RESTARTS;
    loop
        invariant
            deck.wf(),
            deck@ == old(deck)@,
            deck.total == old(deck).total,
        decreases restarts_left,
    {
        match determinize_once(deck, hints, rng) {
            Some(sampled) => {
                return Some(sampled);
            },
            None => {
                // there are no matching cards! start over
                if restarts_left == 0 {
                    return None;
                }
                restarts_left -= 1;
            },
        }
    }
}

/// Powers of 256 are positive.
pub proof fn lemma_cap_positive(n: int)
    ensures
        cap(n) >= 1,
    decreases n,
{
    if n > 0 {
        lemma_cap_positive(n - 1);
    }
}

/// Empty slots hold no card identity.
pub proof fn lemma_held_blank_tail(hand: Seq<Card>, id: int, k: int, n: int)
    requires
        0 <= k <= n <= hand.len(),
        0 <= id < 25,
        forall|j: int| k <= j < n ==> (#[trigger] hand[j]).is_blank(),
    ensures
        held(hand, id, n) == held(hand, id, k),
    decreases n,
{
    if k < n {
        assert(hand[n - 1].is_blank());
        lemma_held_blank_tail(hand, id, k, n - 1);
    }
}

/// Empty slots are not filled.
pub proof fn lemma_filled_blank_tail(hand: Seq<Card>, k: int, n: int)
    requires
        0 <= k <= n <= hand.len(),
        forall|j: int| k <= j < n ==> (#[trigger] hand[j]).is_blank(),
    ensures
        filled(hand, n) == filled(hand, k),
    decreases n,
{
    if k < n {
        assert(hand[n - 1].is_blank());
        lemma_filled_blank_tail(hand, k, n - 1);
    }
}

} // verus!
