use blackjack::game::{
    hard_total_basic_strategy, round_result, trim_line_ending, user_input_to_action, Game, PlayerOutcome,
    RoundResult, UserAction,
};
use blackjack::hand::Hand;

fn advice(player: &[char], dealer_upcard: char) -> UserAction {
    let player_hand = Hand::new(player.to_vec());
    let dealer_hand = Hand::new(vec!['K', dealer_upcard]);
    hard_total_basic_strategy(&player_hand, &dealer_hand)
}

#[test]
fn strategy_sixteen_against_six_stands() {
    assert_eq!(advice(&['T', '6'], '6'), UserAction::Stand);
}

#[test]
fn strategy_sixteen_against_seven_hits() {
    assert_eq!(advice(&['T', '6'], '7'), UserAction::Hit);
}

#[test]
fn strategy_eleven_always_doubles() {
    for upcard in "23456789TJQKA".chars() {
        assert_eq!(advice(&['5', '6'], upcard), UserAction::DoubleDown);
    }
}

#[test]
fn strategy_ten_against_ace_hits() {
    assert_eq!(advice(&['4', '6'], 'A'), UserAction::Hit);
    assert_eq!(advice(&['4', '6'], 'Q'), UserAction::Hit);
    assert_eq!(advice(&['4', '6'], '9'), UserAction::DoubleDown);
}

#[test]
fn strategy_rest_of_table() {
    assert_eq!(advice(&['T', '7'], '2'), UserAction::Stand);
    assert_eq!(advice(&['T', 'Q', 'A'], 'A'), UserAction::Stand);
    assert_eq!(advice(&['T', '3'], '2'), UserAction::Stand);
    assert_eq!(advice(&['T', '3'], 'A'), UserAction::Hit);
    assert_eq!(advice(&['T', '2'], '3'), UserAction::Hit);
    assert_eq!(advice(&['T', '2'], '4'), UserAction::Stand);
    assert_eq!(advice(&['4', '5'], '3'), UserAction::DoubleDown);
    assert_eq!(advice(&['4', '5'], '2'), UserAction::Hit);
    assert_eq!(advice(&['4', '5'], '7'), UserAction::Hit);
    assert_eq!(advice(&['3', '5'], '6'), UserAction::Hit);
    assert_eq!(advice(&['3', '4'], '6'), UserAction::Unknown);
    assert_eq!(advice(&['A', '6'], '9'), UserAction::Unknown);
}

#[test]
fn user_input_maps_to_actions() {
    assert_eq!(user_input_to_action("h"), UserAction::Hit);
    assert_eq!(user_input_to_action("s"), UserAction::Stand);
    assert_eq!(user_input_to_action("d"), UserAction::DoubleDown);
    assert_eq!(user_input_to_action("H"), UserAction::Unknown);
    assert_eq!(user_input_to_action("hs"), UserAction::Unknown);
    assert_eq!(user_input_to_action(""), UserAction::Unknown);
    assert_eq!(user_input_to_action(" h"), UserAction::Unknown);
}

#[test]
fn outcome_tie_goes_to_dealer() {
    let player = Hand::new(vec!['K', 'Q']);
    let dealer = Hand::new(vec!['J', 'T']);
    assert_eq!(
        round_result(PlayerOutcome::Stand, &player, PlayerOutcome::Stand, &dealer),
        RoundResult::DealerWins
    );
}

#[test]
fn outcome_compares_larger_totals() {
    let player = Hand::new(vec!['A', '9']);
    let dealer = Hand::new(vec!['K', '9']);
    assert_eq!(
        round_result(PlayerOutcome::Stand, &player, PlayerOutcome::Stand, &dealer),
        RoundResult::PlayerWins
    );
    assert_eq!(
        round_result(PlayerOutcome::Stand, &dealer, PlayerOutcome::Stand, &player),
        RoundResult::DealerWins
    );
}

#[test]
fn outcome_busts() {
    let busted = Hand::new(vec!['K', 'Q', '5']);
    let standing = Hand::new(vec!['K', '7']);
    assert_eq!(
        round_result(PlayerOutcome::Stand, &standing, PlayerOutcome::Bust, &busted),
        RoundResult::PlayerWins
    );
    assert_eq!(
        round_result(PlayerOutcome::Bust, &busted, PlayerOutcome::Stand, &standing),
        RoundResult::DealerWins
    );
    assert_eq!(
        round_result(PlayerOutcome::Bust, &busted, PlayerOutcome::Bust, &busted),
        RoundResult::DealerWins
    );
}

#[test]
fn game_new_builds_fresh_shoe_and_empty_hands() {
    let game = Game::new(2, 1, 50);
    assert_eq!(game.num_of_players(), 2);
    assert_eq!(game.shoe().cards().len(), 52);
    assert_eq!(game.shoe().penetration_depth(), 26);
    assert_eq!(game.dealer_hand().cards().len(), 0);
    assert_eq!(game.player_hand(0).cards().len(), 0);
    assert_eq!(game.player_hand(1).cards().len(), 0);
}

#[test]
fn game_deal_gives_two_cards_each() {
    let mut game = Game::new(1, 1, 50);
    assert!(game.deal());
    assert_eq!(game.dealer_hand().cards().len(), 2);
    assert_eq!(game.player_hand(0).cards().len(), 2);
    assert_eq!(game.shoe().cards().len(), 48);
}

#[test]
fn game_player_turn_transitions() {
    let mut game = Game::new(1, 1, 50);
    assert!(game.deal());
    assert_eq!(game.player_turn(UserAction::Unknown), PlayerOutcome::InProgress);
    assert_eq!(game.shoe().cards().len(), 48);
    assert_eq!(game.player_turn(UserAction::Stand), PlayerOutcome::Stand);
    assert_eq!(game.shoe().cards().len(), 48);

    let outcome = game.player_turn(UserAction::Hit);
    assert_eq!(game.player_hand(0).cards().len(), 3);
    assert_eq!(game.shoe().cards().len(), 47);
    let expected = if game.player_hand(0).is_busted() {
        PlayerOutcome::Bust
    } else {
        PlayerOutcome::InProgress
    };
    assert_eq!(outcome, expected);
}

#[test]
fn game_double_down_draws_for_dealer() {
    let mut game = Game::new(1, 1, 50);
    assert!(game.deal());
    assert_eq!(game.player_turn(UserAction::DoubleDown), PlayerOutcome::Stand);
    assert_eq!(game.dealer_hand().cards().len(), 3);
    assert_eq!(game.player_hand(0).cards().len(), 2);
}

#[test]
fn game_dealer_plays_to_seventeen() {
    let mut game = Game::new(1, 1, 50);
    assert!(game.deal());
    let dealt = game.dealer_hand().cards().clone();
    let outcome = game.dealer_turn();
    let dealer = game.dealer_hand();
    assert_eq!(dealer.cards()[..2], dealt[..]);
    match outcome {
        PlayerOutcome::Stand => {
            assert!(dealer.low() >= 17 || dealer.high() >= 17);
            assert!(!dealer.is_busted());
        }
        PlayerOutcome::Bust => assert!(dealer.is_busted()),
        PlayerOutcome::InProgress => panic!("the dealer's turn must finish"),
    }
    assert_eq!(game.player_hand(0).cards().len(), 2);
    assert_eq!(game.shoe().cards().len() + dealer.cards().len(), 50);
}

#[test]
fn game_dealer_turn_stands_without_drawing() {
    let mut game = Game::new(1, 1, 50);
    assert!(game.deal());
    while game.dealer_step() == PlayerOutcome::InProgress {}
    let cards = game.dealer_hand().cards().clone();
    let left = game.shoe().cards().len();
    if !game.dealer_hand().is_busted() {
        assert_eq!(game.dealer_turn(), PlayerOutcome::Stand);
        assert_eq!(game.dealer_hand().cards(), &cards);
        assert_eq!(game.shoe().cards().len(), left);
    }
}

#[test]
fn game_dealer_step_draws_one_card_below_seventeen() {
    let mut game = Game::new(1, 1, 50);
    assert!(game.deal());
    let low = game.dealer_hand().low();
    let high = game.dealer_hand().high();
    let outcome = game.dealer_step();
    if low >= 17 || high >= 17 {
        assert_eq!(outcome, PlayerOutcome::Stand);
        assert_eq!(game.dealer_hand().cards().len(), 2);
    } else {
        assert_eq!(game.dealer_hand().cards().len(), 3);
        assert_eq!(game.shoe().cards().len(), 47);
        assert_ne!(outcome, PlayerOutcome::Stand);
    }
}

#[test]
fn trim_line_ending_removes_one_newline_then_one_return() {
    assert_eq!(trim_line_ending("h\n"), "h");
    assert_eq!(trim_line_ending("s\r\n"), "s");
    assert_eq!(trim_line_ending("d\r"), "d");
    assert_eq!(trim_line_ending("h\n\n"), "h\n");
    assert_eq!(trim_line_ending("h\n\r"), "h\n");
    assert_eq!(trim_line_ending(""), "");
    assert_eq!(trim_line_ending("hs"), "hs");
    assert_eq!(user_input_to_action(trim_line_ending("d\r\n")), UserAction::DoubleDown);
}
