use vstd::prelude::*;

verus! {

/// A hand busts once both of its totals are above this value.
pub const BLACKJACK: u8 = 21;

/// The largest value a single card can add to a total (an ace counted high).
pub const MAX_CARD_VALUE: u8 = 11;

/// The thirteen rank symbols of a standard deck.
pub open spec fn is_valid_card(c: char) -> bool {
    c == '2' || c == '3' || c == '4' || c == '5' || c == '6' || c == '7' || c == '8' || c == '9'
        || c == 'T' || c == 'J' || c == 'Q' || c == 'K' || c == 'A'
}

pub open spec fn all_valid(s: Seq<char>) -> bool {
    forall|i: int| 0 <= i < s.len() ==> is_valid_card(#[trigger] s[i])
}

/// What a card adds to the low total: an ace counts 1.
pub open spec fn card_low(c: char) -> int {
    if c == 'A' {
        1
    } else if c == 'T' || c == 'J' || c == 'Q' || c == 'K' {
        10
    } else if c == '2' {
        2
    } else if c == '3' {
        3
    } else if c == '4' {
        4
    } else if c == '5' {
        5
    } else if c == '6' {
        6
    } else if c == '7' {
        7
    } else if c == '8' {
        8
    } else {
        9
    }
}

/// What a card adds to the high total: an ace counts 11.
pub open spec fn card_high(c: char) -> int {
    if c == 'A' {
        11
    } else {
        card_low(c)
    }
}

pub open spec fn hand_low(s: Seq<char>) -> int
    decreases s.len(),
{
    if s.len() == 0 {
        0
    } else {
        hand_low(s.drop_last()) + card_low(s.last())
    }
}

pub open spec fn hand_high(s: Seq<char>) -> int
    decreases s.len(),
{
    if s.len() == 0 {
        0
    } else {
        hand_high(s.drop_last()) + card_high(s.last())
    }
}

pub open spec fn count_aces(s: Seq<char>) -> int
    decreases s.len(),
{
    if s.len() == 0 {
        0
    } else {
        count_aces(s.drop_last()) + if s.last() == 'A' {
            1int
        } else {
            0int
        }
    }
}

/// A hand is busted when it is over 21 however its aces are counted.
pub open spec fn busted(s: Seq<char>) -> bool {
    hand_low(s) > BLACKJACK && hand_high(s) > BLACKJACK
}

/// The totals of a hand still leave room for one more card in a `u8`.
pub open spec fn fits_another_card(s: Seq<char>) -> bool {
    hand_high(s) + MAX_CARD_VALUE <= u8::MAX
}

/// The two totals of any hand of valid cards differ by ten for each ace it holds.
pub proof fn lemma_totals_differ_by_aces(s: Seq<char>)
    requires
        all_valid(s),
    ensures
        hand_high(s) - hand_low(s) == 10 * count_aces(s),
        hand_high(s) >= hand_low(s),
    decreases s.len(),
{
    if s.len() > 0 {
        assert(all_valid(s.drop_last())) by {
            assert forall|i: int| 0 <= i < s.drop_last().len() implies is_valid_card(
                #[trigger] s.drop_last()[i],
            ) by {
                assert(s.drop_last()[i] == s[i]);
            }
        }
        assert(is_valid_card(s[s.len() - 1]));
        lemma_totals_differ_by_aces(s.drop_last());
    }
}

/// Every valid card adds at least one to the low total.
pub proof fn lemma_low_at_least_len(s: Seq<char>)
    requires
        all_valid(s),
    ensures
        hand_low(s) >= s.len(),
        hand_high(s) <= hand_low(s) + 10 * s.len(),
    decreases s.len(),
{
    if s.len() > 0 {
        assert(all_valid(s.drop_last())) by {
            assert forall|i: int| 0 <= i < s.drop_last().len() implies is_valid_card(
                #[trigger] s.drop_last()[i],
            ) by {
                assert(s.drop_last()[i] == s[i]);
            }
        }
        assert(is_valid_card(s[s.len() - 1]));
        lemma_low_at_least_len(s.drop_last());
    }
}

/// The cards dealt to one participant, with their low and high totals.
pub struct Hand {
    cards: Vec<char>,
    low: u8,
    high: u8,
}

impl Hand {
    /// The cards of the hand, in the order they were dealt.
    pub closed spec fn cards_view(&self) -> Seq<char> {
        self.cards@
    }

    pub closed spec fn totals_match(&self) -> bool {
        self.low as int == hand_low(self.cards@) && self.high as int == hand_high(self.cards@)
    }

    pub open spec fn wf(&self) -> bool {
        &&& all_valid(self.cards_view())
        &&& self.totals_match()
    }

    proof fn lemma_push_valid(s: Seq<char>, c: char)
        requires
            all_valid(s),
            is_valid_card(c),
        ensures
            all_valid(s.push(c)),
            s.push(c).drop_last() == s,
            s.push(c).last() == c,
    {
        assert(s.push(c).drop_last() =~= s);
        assert forall|i: int| 0 <= i < s.push(c).len() implies is_valid_card(
            #[trigger] s.push(c)[i],
        ) by {
            if i < s.len() {
                assert(s.push(c)[i] == s[i]);
            }
        }
    }

    /// Builds a hand holding `cards`, with totals that count them.
    pub fn new(cards: Vec<char>) -> (h: Hand)
        requires
            all_valid(cards@),
            hand_high(cards@) <= u8::MAX,
        ensures
            h.wf(),
            h.cards_view() == cards@,
    {
        let mut h = Hand { cards: Vec::new(), low: 0, high: 0 };
        let mut i: usize = 0;
        while i < cards.len()
            invariant
                i <= cards.len(),
                all_valid(cards@),
                hand_high(cards@) <= u8::MAX,
                h.wf(),
                h.cards@ == cards@.subrange(0, i as int),
            decreases cards.len() - i,
        {
            proof {
                let pre = cards@.subrange(0, i as int + 1);
                assert(pre.drop_last() =~= cards@.subrange(0, i as int));
                assert(cards@ =~= pre + cards@.subrange(i as int + 1, cards.len() as int));
                Self::lemma_high_of_prefix(cards@, i as int + 1);
                lemma_low_at_least_len(cards@.subrange(0, i as int));
                assert(is_valid_card(cards@[i as int]));
            }
            let c = cards[i];
            h.push_card(c);
            i = i + 1;
            assert(h.cards@ =~= cards@.subrange(0, i as int));
        }
        assert(cards@.subrange(0, cards.len() as int) =~= cards@);
        h
    }

    /// The high total of a prefix never exceeds that of the whole sequence.
    proof fn lemma_high_of_prefix(s: Seq<char>, k: int)
        requires
            all_valid(s),
            0 <= k <= s.len(),
        ensures
            hand_high(s.subrange(0, k)) <= hand_high(s),
        decreases s.len() - k,
    {
        if k < s.len() {
            Self::lemma_high_of_prefix(s, k + 1);
            let pre = s.subrange(0, k + 1);
            assert(pre.drop_last() =~= s.subrange(0, k));
            assert(is_valid_card(s[k]));
        } else {
            assert(s.subrange(0, k) =~= s);
        }
    }

    fn push_card(&mut self, card: char)
        requires
            old(self).wf(),
            is_valid_card(card),
            hand_high(old(self).cards_view()) + card_high(card) <= u8::MAX,
        ensures
            final(self).wf(),
            final(self).cards_view() == old(self).cards_view().push(card),
            hand_low(final(self).cards_view()) == hand_low(old(self).cards_view()) + card_low(card),
            hand_high(final(self).cards_view()) == hand_high(old(self).cards_view()) + card_high(
                card,
            ),
    {
        proof {
            Self::lemma_push_valid(self.cards@, card);
            lemma_totals_differ_by_aces(self.cards@);
        }
        self.cards.push(card);
        self.update_count(card);
    }

    /// Adds `card` to the hand and tells whether the hand is still in play.
    pub fn add_card(&mut self, card: char) -> (alive: bool)
        requires
            old(self).wf(),
            is_valid_card(card),
            fits_another_card(old(self).cards_view()),
        ensures
            final(self).wf(),
            final(self).cards_view() == old(self).cards_view().push(card),
            hand_low(final(self).cards_view()) == hand_low(old(self).cards_view()) + card_low(card),
            hand_high(final(self).cards_view()) == hand_high(old(self).cards_view()) + card_high(
                card,
            ),
            alive == !busted(final(self).cards_view()),
    {
        self.push_card(card);
        !self.is_busted()
    }

    fn update_count(&mut self, card: char)
        requires
            is_valid_card(card),
            old(self).low + card_low(card) <= u8::MAX,
            old(self).high + card_high(card) <= u8::MAX,
        ensures
            final(self).cards == old(self).cards,
            final(self).low == old(self).low + card_low(card),
            final(self).high == old(self).high + card_high(card),
    {
        let (lo, hi): (u8, u8) = match card {
            '2' => (2, 2),
            '3' => (3, 3),
            '4' => (4, 4),
            '5' => (5, 5),
            '6' => (6, 6),
            '7' => (7, 7),
            '8' => (8, 8),
            '9' => (9, 9),
            'T' | 'J' | 'Q' | 'K' => (10, 10),
            _ => (1, 11),
        };
        self.low = self.low + lo;
        self.high = self.high + hi;
    }

    /// Whether both totals are over 21.
    pub fn is_busted(&self) -> (r: bool)
        requires
            self.wf(),
        ensures
            r == busted(self.cards_view()),
            r <==> hand_low(self.cards_view()) > 21 && hand_high(self.cards_view()) > 21,
    {
        self.low > BLACKJACK && self.high > BLACKJACK
    }

    /// Empties the hand for the next round.
    pub fn reset(&mut self)
        ensures
            final(self).wf(),
            final(self).cards_view() == Seq::<char>::empty(),
    {
        self.cards.clear();
        self.low = 0;
        self.high = 0;
    }

    pub fn cards(&self) -> (r: &Vec<char>)
        ensures
            r@ == self.cards_view(),
    {
        &self.cards
    }

    /// The total with every ace counted as 1.
    pub fn low(&self) -> (r: u8)
        requires
            self.wf(),
        ensures
            r == hand_low(self.cards_view()),
    {
        self.low
    }

    /// The total with every ace counted as 11.
    pub fn high(&self) -> (r: u8)
        requires
            self.wf(),
        ensures
            r == hand_high(self.cards_view()),
    {
        self.high
    }
}

} // verus!
