use blackjack::render::{
    construct_bottom_row, construct_lower_suit_row, construct_lower_value_row,
    construct_top_row, construct_upper_club, construct_upper_diamond, construct_upper_suit_row,
    construct_upper_value_row, hand_rows, hidden_hand_rows,
};

#[test]
fn render_frame_rows() {
    let cards = vec!['A', 'K'];
    assert_eq!(construct_top_row(&cards), ".------. .------. ");
    assert_eq!(construct_bottom_row(&cards), "`------' `------' ");
    assert_eq!(construct_top_row(&Vec::new()), "");
}

#[test]
fn render_value_rows_show_ranks() {
    let cards = vec!['A', 'K'];
    assert_eq!(construct_upper_value_row(&cards), "|A.--. | |K.--. | ");
    assert_eq!(construct_lower_value_row(&cards), "| '--'A| | '--'K| ");
}

#[test]
fn render_suits_cycle_by_position() {
    let cards = vec!['2', '3', '4', '5', '6'];
    assert_eq!(
        construct_upper_suit_row(&cards),
        "| :/\\: | | :(): | | (\\/) | | :/\\: | | :/\\: | "
    );
    assert_eq!(
        construct_lower_suit_row(&cards),
        "| :\\/: | | ()() | | :\\/: | | (__) | | :\\/: | "
    );
    assert_eq!(construct_upper_diamond(), "| :/\\: |");
    assert_eq!(construct_upper_club(), "| :(): |");
}

#[test]
fn render_hand_rows_in_order() {
    let rows = hand_rows(&vec!['Q']);
    assert_eq!(
        rows,
        vec![
            ".------. ",
            "|Q.--. | ",
            "| :/\\: | ",
            "| :\\/: | ",
            "| '--'Q| ",
            "`------' ",
        ]
    );
}

#[test]
fn render_hidden_hand_covers_first_card() {
    let rows = hidden_hand_rows(&vec!['9', '7']);
    assert_eq!(
        rows,
        vec![
            ".------. .------. ",
            "|      | |7.--. | ",
            "|      | | :/\\: | ",
            "|      | | :\\/: | ",
            "|      | | '--'7| ",
            "`------' `------' ",
        ]
    );
}
