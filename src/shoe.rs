use crate::hand::{all_valid, busted, fits_another_card, is_valid_card, Hand};
use rand::seq::SliceRandom;
use vstd::prelude::*;

verus! {

pub const CARDS_PER_DECK: usize = 52;

pub const CARDS_PER_HAND: usize = 2;

/// One suit: the thirteen ranks in ascending order.
pub open spec fn suit_seq() -> Seq<char> {
    seq!['2', '3', '4', '5', '6', '7', '8', '9', 'T', 'J', 'Q', 'K', 'A']
}

/// One deck: four suits.
pub open spec fn deck_seq() -> Seq<char> {
    suit_seq() + suit_seq() + suit_seq() + suit_seq()
}

/// `n` decks, one after the other.
pub open spec fn shoe_seq(n: nat) -> Seq<char>
    decreases n,
{
    if n == 0 {
        Seq::<char>::empty()
    } else {
        shoe_seq((n - 1) as nat) + deck_seq()
    }
}

pub open spec fn total_cards(decks: int) -> int {
    decks * 52
}

/// How many cards may be dealt from a full shoe before it is rebuilt.
pub open spec fn depth_of(decks: int, percentage: int) -> int {
    decks * 52 * percentage / 100
}

/// How many cards a deal takes: two for each player hand and two for the dealer.
pub open spec fn deal_size(num_player_hands: int) -> int {
    (num_player_hands + 1) * 2
}

/// `pool` holds exactly the cards of `decks` full decks, in some order.
pub open spec fn is_fresh_pool(decks: int, pool: Seq<char>) -> bool {
    &&& pool.len() == total_cards(decks)
    &&& pool.to_multiset() == shoe_seq(decks as nat).to_multiset()
}

/// Relies on rand's `SliceRandom::shuffle` driven by `thread_rng`: it only swaps
/// elements, so the cards come back in some order with none added or lost.
#[verifier::external_body]
fn shuffle_cards(cards: &mut Vec<char>)
    ensures
        final(cards)@.len() == old(cards)@.len(),
        final(cards)@.to_multiset() == old(cards)@.to_multiset(),
{
    cards.shuffle(&mut rand::thread_rng());
}

/// The undealt cards of one or more decks, with the reshuffle policy.
pub struct Shoe {
    num_of_decks: u8,
    num_of_cards: usize,
    penetration_percentage: u8,
    penetration_depth: usize,
    cards: Vec<char>,
}

impl Shoe {
    pub closed spec fn decks(&self) -> int {
        self.num_of_decks as int
    }

    pub closed spec fn percentage(&self) -> int {
        self.penetration_percentage as int
    }

    /// The undealt cards; the next card dealt is the last one.
    pub closed spec fn pool(&self) -> Seq<char> {
        self.cards@
    }

    pub closed spec fn config_matches(&self) -> bool {
        &&& self.num_of_cards as int == total_cards(self.num_of_decks as int)
        &&& self.penetration_depth as int == depth_of(
            self.num_of_decks as int,
            self.penetration_percentage as int,
        )
    }

    pub open spec fn total(&self) -> int {
        total_cards(self.decks())
    }

    pub open spec fn depth(&self) -> int {
        depth_of(self.decks(), self.percentage())
    }

    pub open spec fn wf(&self) -> bool {
        &&& self.config_matches()
        &&& all_valid(self.pool())
        &&& self.pool().len() <= self.total()
    }

    /// Same decks and percentage as `other`.
    pub open spec fn same_config(&self, other: Shoe) -> bool {
        self.decks() == other.decks() && self.percentage() == other.percentage()
    }

    /// Dealing `n` more cards would go past the penetration depth, or the pool
    /// holds fewer than `n` cards: the shoe is rebuilt first.
    pub open spec fn needs_reset(&self, n: int) -> bool {
        n + (self.total() - self.pool().len()) > self.depth() || self.pool().len() < n
    }

    /// `pool` is what the shoe holds once the penetration policy has run for a
    /// request of `n` cards: a fresh shoe if it had to be rebuilt, else the old pool.
    pub open spec fn prepared_pool(&self, n: int, pool: Seq<char>) -> bool {
        if self.needs_reset(n) {
            is_fresh_pool(self.decks(), pool)
        } else {
            pool == self.pool()
        }
    }

    /// One card is drawn from `old_shoe` into a hand holding `before`, which
    /// then holds `after`, and the shoe becomes `self`.
    pub open spec fn draws_one(
        &self,
        old_shoe: Shoe,
        before: Seq<char>,
        after: Seq<char>,
    ) -> bool {
        &&& self.wf()
        &&& self.same_config(old_shoe)
        &&& if 1 > old_shoe.depth() {
            *self == old_shoe && after == before
        } else {
            exists|pool: Seq<char>|
                #[trigger] old_shoe.prepared_pool(1, pool) && pool.len() >= 1 && self.pool()
                    == pool.drop_last() && after == before.push(pool.last())
        }
    }

    proof fn lemma_config_nonlinear(d: int, p: int)
        requires
            0 <= d <= 255,
            0 <= p <= 255,
        ensures
            0 <= d * 52 <= 13260,
            0 <= d * 52 * p <= 13260 * 255,
            d * 52 * p / 100 >= 1 ==> d >= 1 && p >= 1,
    {
        assert(0 <= d * 52 <= 13260) by (nonlinear_arith)
            requires
                0 <= d <= 255,
        ;
        assert(0 <= d * 52 * p <= 13260 * 255) by (nonlinear_arith)
            requires
                0 <= d * 52 <= 13260,
                0 <= p <= 255,
        ;
        if d == 0 {
            assert(d * 52 * p == 0) by (nonlinear_arith)
                requires
                    d == 0,
            ;
        }
        if p == 0 {
            assert(d * 52 * p == 0) by (nonlinear_arith)
                requires
                    p == 0,
            ;
        }
    }

    /// A shoe of `num_of_decks` decks whose pool starts as `cards`; its
    /// penetration depth is `floor(num_of_decks * 52 * penetration_percentage / 100)`.
    pub fn new(num_of_decks: u8, penetration_percentage: u8, cards: Vec<char>) -> (s: Shoe)
        requires
            all_valid(cards@),
            cards@.len() <= total_cards(num_of_decks as int),
        ensures
            s.wf(),
            s.decks() == num_of_decks,
            s.percentage() == penetration_percentage,
            s.pool() == cards@,
            s.depth() == num_of_decks * 52 * penetration_percentage / 100,
    {
        proof {
            Self::lemma_config_nonlinear(num_of_decks as int, penetration_percentage as int);
        }
        let num_of_cards: usize = num_of_decks as usize * CARDS_PER_DECK;
        let penetration_depth: usize = num_of_cards * penetration_percentage as usize / 100;
        Shoe { num_of_decks, num_of_cards, penetration_percentage, penetration_depth, cards }
    }

    /// Appends one suit of thirteen ranks to the pool.
    pub fn add_suit(&mut self)
        requires
            old(self).wf(),
            old(self).pool().len() + 13 <= old(self).total(),
        ensures
            final(self).wf(),
            final(self).same_config(*old(self)),
            final(self).pool() == old(self).pool() + suit_seq(),
    {
        let ghost before = self.cards@;
        self.cards.push('2');
        self.cards.push('3');
        self.cards.push('4');
        self.cards.push('5');
        self.cards.push('6');
        self.cards.push('7');
        self.cards.push('8');
        self.cards.push('9');
        self.cards.push('T');
        self.cards.push('J');
        self.cards.push('Q');
        self.cards.push('K');
        self.cards.push('A');
        assert(self.cards@ =~= before + suit_seq());
        assert forall|i: int| 0 <= i < self.cards@.len() implies is_valid_card(
            #[trigger] self.cards@[i],
        ) by {
            if i >= before.len() {
                assert(self.cards@[i] == suit_seq()[i - before.len()]);
            }
        }
    }

    /// Appends one full deck to the pool.
    pub fn add_deck(&mut self)
        requires
            old(self).wf(),
            old(self).pool().len() + 52 <= old(self).total(),
        ensures
            final(self).wf(),
            final(self).same_config(*old(self)),
            final(self).pool() == old(self).pool() + deck_seq(),
    {
        let ghost before = self.cards@;
        self.add_suit();
        self.add_suit();
        self.add_suit();
        self.add_suit();
        assert(self.cards@ =~= before + deck_seq());
    }

    /// Puts the pool in a random order.
    pub fn shuffle(&mut self)
        requires
            old(self).wf(),
        ensures
            final(self).wf(),
            final(self).same_config(*old(self)),
            final(self).pool().len() == old(self).pool().len(),
            final(self).pool().to_multiset() == old(self).pool().to_multiset(),
    {
        shuffle_cards(&mut self.cards);
        proof {
            Self::lemma_same_multiset_valid(old(self).cards@, self.cards@);
        }
    }

    proof fn lemma_same_multiset_valid(a: Seq<char>, b: Seq<char>)
        requires
            all_valid(a),
            a.to_multiset() == b.to_multiset(),
        ensures
            all_valid(b),
    {
        broadcast use vstd::seq_lib::to_multiset_contains;

        assert forall|i: int| 0 <= i < b.len() implies is_valid_card(#[trigger] b[i]) by {
            assert(b.contains(b[i]));
            assert(b.to_multiset().count(b[i]) > 0);
            assert(a.contains(b[i]));
        }
    }

    proof fn lemma_shoe_seq_valid(n: nat)
        ensures
            all_valid(shoe_seq(n)),
            shoe_seq(n).len() == n * 52,
        decreases n,
    {
        if n > 0 {
            Self::lemma_shoe_seq_valid((n - 1) as nat);
            let prev = shoe_seq((n - 1) as nat);
            let s = shoe_seq(n);
            assert(s == prev + deck_seq());
            assert forall|i: int| 0 <= i < s.len() implies is_valid_card(#[trigger] s[i]) by {
                if i >= prev.len() {
                    let j = i - prev.len();
                    assert(s[i] == deck_seq()[j]);
                    assert(deck_seq()[j] == suit_seq()[j % 13]);
                }
            }
            assert(s.len() == (n - 1) * 52 + 52) by (nonlinear_arith)
                requires
                    s.len() == prev.len() + 52,
                    prev.len() == (n - 1) * 52,
            ;
            assert(s.len() == n * 52) by (nonlinear_arith)
                requires
                    s.len() == (n - 1) * 52 + 52,
            ;
        }
    }

    /// Fills an empty pool with every card of the shoe's decks and shuffles it.
    pub fn init(&mut self)
        requires
            old(self).wf(),
            old(self).decks() > 0,
            old(self).percentage() > 0,
            old(self).pool().len() == 0,
        ensures
            final(self).wf(),
            final(self).same_config(*old(self)),
            is_fresh_pool(final(self).decks(), final(self).pool()),
            final(self).pool().len() == final(self).decks() * 52,
    {
        let mut k: u8 = 0;
        while k < self.num_of_decks
            invariant
                self.wf(),
                self.same_config(*old(self)),
                k <= self.num_of_decks,
                self.cards@ == shoe_seq(k as nat),
            decreases self.num_of_decks - k,
        {
            proof {
                Self::lemma_shoe_seq_valid(k as nat);
                assert((k + 1) * 52 <= self.num_of_decks * 52) by (nonlinear_arith)
                    requires
                        k + 1 <= self.num_of_decks,
                ;
                assert(k * 52 + 52 == (k + 1) * 52) by (nonlinear_arith);
            }
            self.add_deck();
            k = k + 1;
        }
        proof {
            Self::lemma_shoe_seq_valid(self.num_of_decks as nat);
        }
        self.shuffle();
    }

    /// Empties the pool and builds it again from full decks, shuffled.
    pub fn reset(&mut self)
        requires
            old(self).wf(),
            old(self).decks() > 0,
            old(self).percentage() > 0,
        ensures
            final(self).wf(),
            final(self).same_config(*old(self)),
            is_fresh_pool(final(self).decks(), final(self).pool()),
            final(self).pool().len() == final(self).decks() * 52,
    {
        self.cards.clear();
        self.init();
    }

    fn deal_one(&mut self) -> (c: char)
        requires
            old(self).wf(),
            old(self).pool().len() > 0,
        ensures
            final(self).wf(),
            final(self).same_config(*old(self)),
            final(self).pool() == old(self).pool().drop_last(),
            c == old(self).pool().last(),
            is_valid_card(c),
    {
        let c = self.cards.pop().unwrap();
        assert(is_valid_card(old(self).cards@[old(self).cards@.len() - 1]));
        c
    }

    /// Runs the penetration policy before `n` cards are dealt. Fails, changing
    /// nothing, when `n` alone is beyond the penetration depth; otherwise
    /// rebuilds the shoe if the deal would pass that depth or the pool is short.
    fn check_penetration_depth(&mut self, n: usize) -> (ok: bool)
        requires
            old(self).wf(),
            n >= 1 || (old(self).decks() > 0 && old(self).percentage() > 0),
        ensures
            ok == (n <= old(self).depth()),
            !ok ==> *final(self) == *old(self),
            ok ==> final(self).wf() && final(self).same_config(*old(self))
                && old(self).prepared_pool(n as int, final(self).pool()),
    {
        proof {
            Self::lemma_config_nonlinear(self.num_of_decks as int, self.penetration_percentage as int);
        }
        if n > self.penetration_depth {
            return false;
        }
        let cards_left_in_shoe: usize = self.cards.len();
        let dealt_so_far: usize = self.num_of_cards - cards_left_in_shoe;
        if n + dealt_so_far > self.penetration_depth || cards_left_in_shoe < n {
            self.reset();
        }
        true
    }

    /// Resets the dealer's hand and every player hand and deals each two cards,
    /// dealer first. Fails, touching nothing, when the deal alone is beyond the
    /// penetration depth.
    pub fn deal(&mut self, player_hands: &mut Vec<Hand>, dealer_hand: &mut Hand) -> (ok: bool)
        requires
            old(self).wf(),
            deal_size(old(player_hands)@.len() as int) <= usize::MAX,
            deal_size(old(player_hands)@.len() as int) <= old(self).depth() ==> deal_size(
                old(player_hands)@.len() as int,
            ) <= old(self).total(),
        ensures
            ok == (deal_size(old(player_hands)@.len() as int) <= old(self).depth()),
            !ok ==> *final(self) == *old(self) && *final(player_hands) == *old(player_hands)
                && *final(dealer_hand) == *old(dealer_hand),
            final(self).wf(),
            final(self).same_config(*old(self)),
            final(player_hands)@.len() == old(player_hands)@.len(),
            ok ==> exists|pool: Seq<char>| #[trigger]
                old(self).prepared_pool(deal_size(old(player_hands)@.len() as int), pool)
                    && deals_round(
                    pool,
                    final(self).pool(),
                    *final(dealer_hand),
                    final(player_hands)@,
                ),
    {
        let num_of_hands: usize = player_hands.len() + 1;
        let n: usize = num_of_hands * CARDS_PER_HAND;
        if !self.check_penetration_depth(n) {
            return false;
        }
        let ghost pool = self.cards@;
        let ghost len = pool.len();
        proof {
            Self::lemma_config_nonlinear(self.num_of_decks as int, self.penetration_percentage as int);
        }
        dealer_hand.reset();
        let c1 = self.deal_one();
        dealer_hand.add_card(c1);
        let c2 = self.deal_one();
        dealer_hand.add_card(c2);
        assert(dealer_hand.cards_view() =~= seq![pool[len - 1], pool[len - 2]]);
        let mut i: usize = 0;
        while i < player_hands.len()
            invariant
                self.wf(),
                self.same_config(*old(self)),
                i <= player_hands@.len(),
                player_hands@.len() == old(player_hands)@.len(),
                len == pool.len(),
                len >= deal_size(player_hands@.len() as int),
                self.pool() == pool.subrange(0, len - 2 - 2 * i),
                dealer_hand.wf(),
                dealer_hand.cards_view() == seq![pool[len - 1], pool[len - 2]],
                forall|j: int|
                    0 <= j < i ==> (#[trigger] player_hands@[j]).wf()
                        && player_hands@[j].cards_view() == seq![
                        pool[len - 3 - 2 * j],
                        pool[len - 4 - 2 * j],
                    ],
            decreases player_hands@.len() - i,
        {
            let a = self.deal_one();
            let b = self.deal_one();
            let mut h = Hand::new(Vec::new());
            h.add_card(a);
            h.add_card(b);
            assert(h.cards_view() =~= seq![pool[len - 3 - 2 * i], pool[len - 4 - 2 * i]]);
            player_hands.set(i, h);
            i = i + 1;
            assert(self.pool() =~= pool.subrange(0, len - 2 - 2 * i));
        }
        assert(deals_round(pool, self.pool(), *dealer_hand, player_hands@));
        true
    }

    /// Draws one card into `hand` after running the penetration policy for one
    /// card. Returns whether the hand is still in play; fails, touching
    /// nothing, when the penetration depth is zero.
    pub fn hit(&mut self, hand: &mut Hand) -> (alive: bool)
        requires
            old(self).wf(),
            old(hand).wf(),
            fits_another_card(old(hand).cards_view()),
        ensures
            final(hand).wf(),
            final(self).draws_one(*old(self), old(hand).cards_view(), final(hand).cards_view()),
            1 > old(self).depth() ==> *final(hand) == *old(hand),
            alive == (1 <= old(self).depth() && !busted(final(hand).cards_view())),
    {
        if !self.check_penetration_depth(1) {
            return false;
        }
        let ghost pool = self.cards@;
        proof {
            Self::lemma_config_nonlinear(self.num_of_decks as int, self.penetration_percentage as int);
        }
        let c = self.deal_one();
        let alive = hand.add_card(c);
        assert(old(self).prepared_pool(1, pool));
        alive
    }

    pub fn num_of_decks(&self) -> (r: u8)
        ensures
            r == self.decks(),
    {
        self.num_of_decks
    }

    pub fn penetration_percentage(&self) -> (r: u8)
        ensures
            r == self.percentage(),
    {
        self.penetration_percentage
    }

    /// The number of cards that may be dealt from a full shoe before it is rebuilt.
    pub fn penetration_depth(&self) -> (r: usize)
        requires
            self.wf(),
        ensures
            r == self.depth(),
    {
        self.penetration_depth
    }

    /// The undealt cards; the next card dealt is the last one.
    pub fn cards(&self) -> (r: &Vec<char>)
        ensures
            r@ == self.pool(),
    {
        &self.cards
    }
}

/// `rest` is what stays of `pool` once a round is dealt from its end: the
/// dealer takes the last two cards, then each player hand in turn the next two.
pub open spec fn deals_round(
    pool: Seq<char>,
    rest: Seq<char>,
    dealer_hand: Hand,
    player_hands: Seq<Hand>,
) -> bool {
    let len = pool.len();
    let n = deal_size(player_hands.len() as int);
    &&& len >= n
    &&& rest == pool.subrange(0, len - n)
    &&& dealer_hand.wf()
    &&& dealer_hand.cards_view() == seq![pool[len - 1], pool[len - 2]]
    &&& forall|j: int|
        0 <= j < player_hands.len() ==> (#[trigger] player_hands[j]).wf()
            && player_hands[j].cards_view() == seq![pool[len - 3 - 2 * j], pool[len - 4 - 2 * j]]
}

} // verus!
