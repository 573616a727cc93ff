use crate::hand::{busted, fits_another_card, hand_high, hand_low, Hand};
use crate::shoe::{deal_size, deals_round, is_fresh_pool, Shoe};
use vstd::prelude::*;

verus! {

/// What the dealer stands on.
pub const DEALER_STANDS_AT: u8 = 17;

/// A player's choice for one turn.
#[derive(Debug, Clone, Copy, PartialEq, Eq, Structural)]
pub enum UserAction {
    Hit,
    Stand,
    DoubleDown,
    Unknown,
}

/// Where one side stands in its turn.
#[derive(Debug, Clone, Copy, PartialEq, Eq, Structural)]
pub enum PlayerOutcome {
    Bust,
    Stand,
    InProgress,
}

/// Who takes the round.
#[derive(Debug, Clone, Copy, PartialEq, Eq, Structural)]
pub enum RoundResult {
    PlayerWins,
    DealerWins,
}

/// The action a line of input names: `h`, `s` or `d`, nothing else.
pub open spec fn action_of(input: Seq<char>) -> UserAction {
    if input == seq!['h'] {
        UserAction::Hit
    } else if input == seq!['s'] {
        UserAction::Stand
    } else if input == seq!['d'] {
        UserAction::DoubleDown
    } else {
        UserAction::Unknown
    }
}

/// Reads a player's command, with the line ending already removed.
pub fn user_input_to_action(input: &str) -> (r: UserAction)
    ensures
        r == action_of(input@),
{
    if input.unicode_len() != 1 {
        return UserAction::Unknown;
    }
    let c = input.get_char(0);
    assert(input@ =~= seq![c]);
    if c == 'h' {
        UserAction::Hit
    } else if c == 's' {
        UserAction::Stand
    } else if c == 'd' {
        UserAction::DoubleDown
    } else {
        UserAction::Unknown
    }
}

/// A line with one trailing `\n` removed, and then one trailing `\r`.
pub open spec fn without_line_ending(line: Seq<char>) -> Seq<char> {
    let s = if line.len() > 0 && line.last() == '\n' {
        line.drop_last()
    } else {
        line
    };
    if s.len() > 0 && s.last() == '\r' {
        s.drop_last()
    } else {
        s
    }
}

/// Removes the line ending that reading a line of input leaves behind.
pub fn trim_line_ending(line: &str) -> (r: &str)
    ensures
        r@ == without_line_ending(line@),
{
    let mut end: usize = line.unicode_len();
    if end > 0 && line.get_char(end - 1) == '\n' {
        end = end - 1;
    }
    if end > 0 && line.get_char(end - 1) == '\r' {
        end = end - 1;
    }
    let r = line.substring_char(0, end);
    proof {
        let s1 = if line@.len() > 0 && line@.last() == '\n' {
            line@.drop_last()
        } else {
            line@
        };
        assert(s1 =~= line@.subrange(0, s1.len() as int));
        if s1.len() > 0 && s1.last() == '\r' {
            assert(s1.drop_last() =~= line@.subrange(0, s1.len() - 1));
        }
    }
    r
}

pub open spec fn is_two_to_six(c: char) -> bool {
    c == '2' || c == '3' || c == '4' || c == '5' || c == '6'
}

pub open spec fn is_ten_or_ace(c: char) -> bool {
    c == 'T' || c == 'J' || c == 'Q' || c == 'K' || c == 'A'
}

/// Basic strategy for a hard total against the dealer's upcard.
pub open spec fn basic_strategy(total: int, upcard: char) -> UserAction {
    if total >= 17 {
        UserAction::Stand
    } else if 13 <= total <= 16 {
        if is_two_to_six(upcard) {
            UserAction::Stand
        } else {
            UserAction::Hit
        }
    } else if total == 12 {
        if upcard == '4' || upcard == '5' || upcard == '6' {
            UserAction::Stand
        } else {
            UserAction::Hit
        }
    } else if total == 11 {
        UserAction::DoubleDown
    } else if total == 10 {
        if is_ten_or_ace(upcard) {
            UserAction::Hit
        } else {
            UserAction::DoubleDown
        }
    } else if total == 9 {
        if upcard == '3' || upcard == '4' || upcard == '5' || upcard == '6' {
            UserAction::DoubleDown
        } else {
            UserAction::Hit
        }
    } else if total == 8 {
        UserAction::Hit
    } else {
        UserAction::Unknown
    }
}

/// The recommended action for the player's low total against the dealer's
/// second card, which is the one showing.
pub fn hard_total_basic_strategy(player_hand: &Hand, dealer_hand: &Hand) -> (r: UserAction)
    requires
        player_hand.wf(),
        dealer_hand.cards_view().len() >= 2,
    ensures
        r == basic_strategy(hand_low(player_hand.cards_view()), dealer_hand.cards_view()[1]),
{
    let upcard: char = dealer_hand.cards()[1];
    let total: u8 = player_hand.low();
    let two_to_six = upcard == '2' || upcard == '3' || upcard == '4' || upcard == '5'
        || upcard == '6';
    if total >= 17 {
        UserAction::Stand
    } else if total >= 13 {
        if two_to_six {
            UserAction::Stand
        } else {
            UserAction::Hit
        }
    } else if total == 12 {
        if upcard == '4' || upcard == '5' || upcard == '6' {
            UserAction::Stand
        } else {
            UserAction::Hit
        }
    } else if total == 11 {
        UserAction::DoubleDown
    } else if total == 10 {
        if upcard == 'T' || upcard == 'J' || upcard == 'Q' || upcard == 'K' || upcard == 'A' {
            UserAction::Hit
        } else {
            UserAction::DoubleDown
        }
    } else if total == 9 {
        if upcard == '3' || upcard == '4' || upcard == '5' || upcard == '6' {
            UserAction::DoubleDown
        } else {
            UserAction::Hit
        }
    } else if total == 8 {
        UserAction::Hit
    } else {
        UserAction::Unknown
    }
}

/// The value a standing hand is compared by: the larger of its two totals.
pub open spec fn best_value(s: Seq<char>) -> int {
    if hand_high(s) >= hand_low(s) {
        hand_high(s)
    } else {
        hand_low(s)
    }
}

/// The result of a round once both sides have finished. The dealer takes
/// ties and every round in which the player busted.
pub open spec fn round_winner(
    player: PlayerOutcome,
    player_cards: Seq<char>,
    dealer: PlayerOutcome,
    dealer_cards: Seq<char>,
) -> RoundResult {
    if player == PlayerOutcome::Stand && dealer == PlayerOutcome::Stand {
        if best_value(dealer_cards) >= best_value(player_cards) {
            RoundResult::DealerWins
        } else {
            RoundResult::PlayerWins
        }
    } else if player == PlayerOutcome::Stand {
        RoundResult::PlayerWins
    } else {
        RoundResult::DealerWins
    }
}

pub open spec fn is_finished(o: PlayerOutcome) -> bool {
    o != PlayerOutcome::InProgress
}

fn max_total(hand: &Hand) -> (r: u8)
    requires
        hand.wf(),
    ensures
        r == best_value(hand.cards_view()),
{
    let low = hand.low();
    let high = hand.high();
    if high >= low {
        high
    } else {
        low
    }
}

/// Settles a round in which both the player and the dealer have finished.
pub fn round_result(
    player_outcome: PlayerOutcome,
    player_hand: &Hand,
    dealer_outcome: PlayerOutcome,
    dealer_hand: &Hand,
) -> (r: RoundResult)
    requires
        is_finished(player_outcome),
        is_finished(dealer_outcome),
        player_hand.wf(),
        dealer_hand.wf(),
    ensures
        r == round_winner(
            player_outcome,
            player_hand.cards_view(),
            dealer_outcome,
            dealer_hand.cards_view(),
        ),
{
    match (player_outcome, dealer_outcome) {
        (PlayerOutcome::Stand, PlayerOutcome::Stand) => {
            if max_total(dealer_hand) >= max_total(player_hand) {
                RoundResult::DealerWins
            } else {
                RoundResult::PlayerWins
            }
        },
        (PlayerOutcome::Stand, _) => RoundResult::PlayerWins,
        _ => RoundResult::DealerWins,
    }
}

/// The dealer's policy: stand once either total reaches 17.
pub open spec fn dealer_stands(s: Seq<char>) -> bool {
    hand_low(s) >= DEALER_STANDS_AT || hand_high(s) >= DEALER_STANDS_AT
}

/// One round: a shoe, the dealer's hand and the players' hands.
pub struct Game {
    num_of_players: u8,
    shoe: Shoe,
    dealer_hand: Hand,
    player_hands: Vec<Hand>,
}

impl Game {
    pub closed spec fn shoe_view(&self) -> Shoe {
        self.shoe
    }

    pub closed spec fn dealer(&self) -> Hand {
        self.dealer_hand
    }

    pub closed spec fn players(&self) -> Seq<Hand> {
        self.player_hands@
    }

    pub closed spec fn num_players(&self) -> int {
        self.num_of_players as int
    }

    pub open spec fn wf(&self) -> bool {
        &&& self.shoe_view().wf()
        &&& self.dealer().wf()
        &&& self.players().len() == self.num_players()
        &&& forall|i: int| 0 <= i < self.players().len() ==> (#[trigger] self.players()[i]).wf()
    }

    /// A game with empty hands for `num_of_players` players and a freshly
    /// built and shuffled shoe.
    pub fn new(num_of_players: u8, num_of_decks: u8, penetration_percentage: u8) -> (g: Game)
        requires
            num_of_decks > 0,
            penetration_percentage > 0,
        ensures
            g.wf(),
            g.num_players() == num_of_players,
            g.shoe_view().decks() == num_of_decks,
            g.shoe_view().percentage() == penetration_percentage,
            is_fresh_pool(num_of_decks as int, g.shoe_view().pool()),
            g.dealer().cards_view().len() == 0,
            forall|i: int|
                0 <= i < g.players().len() ==> (#[trigger] g.players()[i]).cards_view().len() == 0,
    {
        let mut shoe = Shoe::new(num_of_decks, penetration_percentage, Vec::new());
        shoe.init();
        let dealer_hand = Hand::new(Vec::new());
        let mut player_hands: Vec<Hand> = Vec::new();
        let mut k: u8 = 0;
        while k < num_of_players
            invariant
                k <= num_of_players,
                player_hands@.len() == k,
                forall|i: int|
                    0 <= i < k ==> (#[trigger] player_hands@[i]).wf()
                        && player_hands@[i].cards_view().len() == 0,
            decreases num_of_players - k,
        {
            player_hands.push(Hand::new(Vec::new()));
            k = k + 1;
        }
        Game { num_of_players, shoe, dealer_hand, player_hands }
    }

    /// Deals the starting hands of a round from the shoe.
    pub fn deal(&mut self) -> (ok: bool)
        requires
            old(self).wf(),
            deal_size(old(self).num_players()) <= old(self).shoe_view().depth() ==> deal_size(
                old(self).num_players(),
            ) <= old(self).shoe_view().total(),
        ensures
            final(self).wf(),
            final(self).num_players() == old(self).num_players(),
            final(self).shoe_view().same_config(old(self).shoe_view()),
            ok == (deal_size(old(self).num_players()) <= old(self).shoe_view().depth()),
            !ok ==> *final(self) == *old(self),
            ok ==> exists|pool: Seq<char>| #[trigger]
                old(self).shoe_view().prepared_pool(deal_size(old(self).num_players()), pool)
                    && deals_round(
                    pool,
                    final(self).shoe_view().pool(),
                    final(self).dealer(),
                    final(self).players(),
                ),
    {
        self.shoe.deal(&mut self.player_hands, &mut self.dealer_hand)
    }

    /// One turn of the first player: carries out `action` and tells where the
    /// player stands. A hit draws into the player's hand; a double down draws
    /// into the dealer's hand and then stands; an unknown action changes nothing.
    pub fn player_turn(&mut self, action: UserAction) -> (r: PlayerOutcome)
        requires
            old(self).wf(),
            old(self).num_players() >= 1,
            action == UserAction::Hit ==> fits_another_card(old(self).players()[0].cards_view()),
            action == UserAction::DoubleDown ==> fits_another_card(
                old(self).dealer().cards_view(),
            ),
        ensures
            final(self).wf(),
            final(self).num_players() == old(self).num_players(),
            final(self).players().len() == old(self).players().len(),
            forall|i: int|
                1 <= i < old(self).players().len() ==> #[trigger] final(self).players()[i]
                    == old(self).players()[i],
            action == UserAction::Hit ==> {
                &&& final(self).shoe_view().draws_one(
                    old(self).shoe_view(),
                    old(self).players()[0].cards_view(),
                    final(self).players()[0].cards_view(),
                )
                &&& final(self).dealer() == old(self).dealer()
                &&& r == if busted(final(self).players()[0].cards_view()) {
                    PlayerOutcome::Bust
                } else {
                    PlayerOutcome::InProgress
                }
            },
            action == UserAction::DoubleDown ==> {
                &&& final(self).shoe_view().draws_one(
                    old(self).shoe_view(),
                    old(self).dealer().cards_view(),
                    final(self).dealer().cards_view(),
                )
                &&& final(self).players()[0] == old(self).players()[0]
                &&& r == PlayerOutcome::Stand
            },
            action == UserAction::Stand ==> *final(self) == *old(self) && r
                == PlayerOutcome::Stand,
            action == UserAction::Unknown ==> *final(self) == *old(self) && r
                == PlayerOutcome::InProgress,
    {
        match action {
            UserAction::Hit => {
                self.shoe.hit(&mut self.player_hands[0]);
                if self.player_hands[0].is_busted() {
                    PlayerOutcome::Bust
                } else {
                    PlayerOutcome::InProgress
                }
            },
            UserAction::Stand => PlayerOutcome::Stand,
            UserAction::DoubleDown => {
                self.shoe.hit(&mut self.dealer_hand);
                PlayerOutcome::Stand
            },
            UserAction::Unknown => PlayerOutcome::InProgress,
        }
    }

    /// One step of the dealer's policy: stands once either total reaches 17,
    /// else draws a card and reports whether that busted the hand.
    pub fn dealer_step(&mut self) -> (r: PlayerOutcome)
        requires
            old(self).wf(),
        ensures
            final(self).wf(),
            final(self).num_players() == old(self).num_players(),
            final(self).players() == old(self).players(),
            final(self).shoe_view().same_config(old(self).shoe_view()),
            dealer_stands(old(self).dealer().cards_view()) ==> *final(self) == *old(self) && r
                == PlayerOutcome::Stand,
            !dealer_stands(old(self).dealer().cards_view()) ==> {
                &&& final(self).shoe_view().draws_one(
                    old(self).shoe_view(),
                    old(self).dealer().cards_view(),
                    final(self).dealer().cards_view(),
                )
                &&& r == if busted(final(self).dealer().cards_view()) {
                    PlayerOutcome::Bust
                } else {
                    PlayerOutcome::InProgress
                }
            },
    {
        if self.dealer_hand.low() >= DEALER_STANDS_AT || self.dealer_hand.high()
            >= DEALER_STANDS_AT {
            return PlayerOutcome::Stand;
        }
        self.shoe.hit(&mut self.dealer_hand);
        if self.dealer_hand.is_busted() {
            PlayerOutcome::Bust
        } else {
            PlayerOutcome::InProgress
        }
    }

    /// A draw by a shoe with a nonzero penetration depth appends exactly one card.
    proof fn lemma_draw_appends(new_shoe: Shoe, old_shoe: Shoe, before: Seq<char>, after: Seq<char>)
        requires
            new_shoe.draws_one(old_shoe, before, after),
            old_shoe.depth() >= 1,
        ensures
            after.len() == before.len() + 1,
            after.drop_last() == before,
            hand_low(after) >= hand_low(before) + 1,
    {
        let pool = choose|pool: Seq<char>|
            #[trigger] old_shoe.prepared_pool(1, pool) && pool.len() >= 1 && new_shoe.pool()
                == pool.drop_last() && after == before.push(pool.last());
        assert(after.drop_last() =~= before);
    }

    /// The dealer's whole turn: applies the dealer's policy until the dealer
    /// stands or busts. Every card drawn is appended to the dealer's hand.
    pub fn dealer_turn(&mut self) -> (r: PlayerOutcome)
        requires
            old(self).wf(),
            old(self).shoe_view().depth() >= 1,
        ensures
            final(self).wf(),
            final(self).num_players() == old(self).num_players(),
            final(self).players() == old(self).players(),
            final(self).shoe_view().same_config(old(self).shoe_view()),
            r == PlayerOutcome::Stand || r == PlayerOutcome::Bust,
            dealer_stands(old(self).dealer().cards_view()) ==> *final(self) == *old(self) && r
                == PlayerOutcome::Stand,
            r == PlayerOutcome::Stand ==> dealer_stands(final(self).dealer().cards_view()),
            r == PlayerOutcome::Bust ==> busted(final(self).dealer().cards_view()),
            !busted(old(self).dealer().cards_view()) ==> (r == PlayerOutcome::Bust <==> busted(
                final(self).dealer().cards_view(),
            )),
            final(self).dealer().cards_view().len() >= old(self).dealer().cards_view().len(),
            final(self).dealer().cards_view().subrange(
                0,
                old(self).dealer().cards_view().len() as int,
            ) == old(self).dealer().cards_view(),
    {
        let ghost start = self.dealer_hand.cards_view();
        let mut outcome = self.dealer_step();
        proof {
            if !dealer_stands(start) {
                Self::lemma_draw_appends(self.shoe, old(self).shoe, start, self.dealer_hand.cards_view());
            }
            assert(self.dealer_hand.cards_view().subrange(0, start.len() as int) =~= start);
        }
        while outcome == PlayerOutcome::InProgress
            invariant
                self.wf(),
                self.num_players() == old(self).num_players(),
                self.players() == old(self).players(),
                self.shoe_view().same_config(old(self).shoe_view()),
                self.shoe_view().depth() >= 1,
                start == old(self).dealer().cards_view(),
                dealer_stands(start) ==> *self == *old(self) && outcome == PlayerOutcome::Stand,
                outcome == PlayerOutcome::InProgress ==> !busted(self.dealer().cards_view()),
                outcome == PlayerOutcome::Stand ==> dealer_stands(self.dealer().cards_view()),
                outcome == PlayerOutcome::Stand && !busted(start) ==> !busted(
                    self.dealer().cards_view(),
                ),
                outcome == PlayerOutcome::Bust ==> busted(self.dealer().cards_view()),
                self.dealer().cards_view().len() >= start.len(),
                self.dealer().cards_view().subrange(0, start.len() as int) == start,
            decreases
                if outcome == PlayerOutcome::InProgress {
                    2 * (22 - hand_low(self.dealer().cards_view())) + 1
                } else {
                    0
                },
        {
            let ghost before = self.dealer_hand.cards_view();
            let ghost shoe_before = self.shoe;
            proof {
                crate::hand::lemma_totals_differ_by_aces(before);
            }
            outcome = self.dealer_step();
            proof {
                if !dealer_stands(before) {
                    Self::lemma_draw_appends(self.shoe, shoe_before, before, self.dealer_hand.cards_view());
                    let after = self.dealer_hand.cards_view();
                    assert(after.subrange(0, start.len() as int) =~= before.subrange(
                        0,
                        start.len() as int,
                    ));
                    if outcome == PlayerOutcome::InProgress {
                        crate::hand::lemma_totals_differ_by_aces(after);
                    }
                }
            }
        }
        outcome
    }

    pub fn num_of_players(&self) -> (r: u8)
        ensures
            r == self.num_players(),
    {
        self.num_of_players
    }

    pub fn shoe(&self) -> (r: &Shoe)
        ensures
            *r == self.shoe_view(),
    {
        &self.shoe
    }

    pub fn dealer_hand(&self) -> (r: &Hand)
        ensures
            *r == self.dealer(),
    {
        &self.dealer_hand
    }

    pub fn player_hand(&self, i: usize) -> (r: &Hand)
        requires
            i < self.players().len(),
        ensures
            *r == self.players()[i as int],
    {
        &self.player_hands[i]
    }
}

} // verus!
