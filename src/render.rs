use vstd::prelude::*;

verus! {

/// Relies on `String::push`, which appends one character to the string.
pub assume_specification[ String::push ](s: &mut String, ch: char)
    ensures
        final(s)@ == old(s)@.push(ch),
;

/// `piece` written `n` times.
pub open spec fn repeat_piece(piece: Seq<char>, n: nat) -> Seq<char>
    decreases n,
{
    if n == 0 {
        Seq::<char>::empty()
    } else {
        repeat_piece(piece, (n - 1) as nat) + piece
    }
}

/// For each card, `left`, the card's rank, `right` and a separating space.
pub open spec fn value_row(cards: Seq<char>, left: Seq<char>, right: Seq<char>) -> Seq<char>
    decreases cards.len(),
{
    if cards.len() == 0 {
        Seq::<char>::empty()
    } else {
        value_row(cards.drop_last(), left, right) + left.push(cards.last()) + right + " "@
    }
}

/// The pip drawn in the upper half of the card at position `i`; the suits
/// cycle diamond, club, heart, spade.
pub open spec fn upper_suit_piece(i: int) -> Seq<char> {
    if i % 4 == 1 {
        "| :(): |"@
    } else if i % 4 == 2 {
        "| (\\/) |"@
    } else if i % 4 == 3 {
        "| :/\\: |"@
    } else {
        "| :/\\: |"@
    }
}

/// The pip drawn in the lower half of the card at position `i`.
pub open spec fn lower_suit_piece(i: int) -> Seq<char> {
    if i % 4 == 1 {
        "| ()() |"@
    } else if i % 4 == 2 {
        "| :\\/: |"@
    } else if i % 4 == 3 {
        "| (__) |"@
    } else {
        "| :\\/: |"@
    }
}

/// The pips of `n` cards, each followed by a space.
pub open spec fn suit_row(upper: bool, n: nat) -> Seq<char>
    decreases n,
{
    if n == 0 {
        Seq::<char>::empty()
    } else {
        suit_row(upper, (n - 1) as nat) + if upper {
            upper_suit_piece(n - 1)
        } else {
            lower_suit_piece(n - 1)
        } + " "@
    }
}

fn repeat_row(n: usize, piece: &str) -> (r: String)
    ensures
        r@ == repeat_piece(piece@ + " "@, n as nat),
{
    let mut row = String::new();
    let mut i: usize = 0;
    while i < n
        invariant
            i <= n,
            row@ == repeat_piece(piece@ + " "@, i as nat),
        decreases n - i,
    {
        row.append(piece);
        row.append(" ");
        i = i + 1;
        assert(row@ =~= repeat_piece(piece@ + " "@, i as nat));
    }
    row
}

fn framed_value_row(cards: &Vec<char>, left: &str, right: &str) -> (r: String)
    ensures
        r@ == value_row(cards@, left@, right@),
{
    let mut row = String::new();
    let mut i: usize = 0;
    while i < cards.len()
        invariant
            i <= cards.len(),
            row@ == value_row(cards@.subrange(0, i as int), left@, right@),
        decreases cards.len() - i,
    {
        row.append(left);
        row.push(cards[i]);
        row.append(right);
        row.append(" ");
        i = i + 1;
        assert(cards@.subrange(0, i as int).drop_last() =~= cards@.subrange(0, i - 1));
        assert(row@ =~= value_row(cards@.subrange(0, i as int), left@, right@));
    }
    assert(cards@.subrange(0, cards.len() as int) =~= cards@);
    row
}

pub fn construct_top_row(cards: &Vec<char>) -> (r: String)
    ensures
        r@ == repeat_piece(".------."@ + " "@, cards@.len()),
{
    repeat_row(cards.len(), ".------.")
}

pub fn construct_upper_value_row(cards: &Vec<char>) -> (r: String)
    ensures
        r@ == value_row(cards@, "|"@, ".--. |"@),
{
    framed_value_row(cards, "|", ".--. |")
}

pub fn construct_lower_value_row(cards: &Vec<char>) -> (r: String)
    ensures
        r@ == value_row(cards@, "| '--'"@, "|"@),
{
    framed_value_row(cards, "| '--'", "|")
}

pub fn construct_bottom_row(cards: &Vec<char>) -> (r: String)
    ensures
        r@ == repeat_piece("`------'"@ + " "@, cards@.len()),
{
    repeat_row(cards.len(), "`------'")
}

pub fn construct_upper_diamond() -> (r: String)
    ensures
        r@ == upper_suit_piece(0),
{
    String::from_str("| :/\\: |")
}

pub fn construct_lower_diamond() -> (r: String)
    ensures
        r@ == lower_suit_piece(0),
{
    String::from_str("| :\\/: |")
}

pub fn construct_upper_club() -> (r: String)
    ensures
        r@ == upper_suit_piece(1),
{
    String::from_str("| :(): |")
}

pub fn construct_lower_club() -> (r: String)
    ensures
        r@ == lower_suit_piece(1),
{
    String::from_str("| ()() |")
}

pub fn construct_upper_heart() -> (r: String)
    ensures
        r@ == upper_suit_piece(2),
{
    String::from_str("| (\\/) |")
}

pub fn construct_lower_heart() -> (r: String)
    ensures
        r@ == lower_suit_piece(2),
{
    String::from_str("| :\\/: |")
}

pub fn construct_upper_spade() -> (r: String)
    ensures
        r@ == upper_suit_piece(3),
{
    String::from_str("| :/\\: |")
}

pub fn construct_lower_spade() -> (r: String)
    ensures
        r@ == lower_suit_piece(3),
{
    String::from_str("| (__) |")
}

pub fn construct_upper_suit_row(cards: &Vec<char>) -> (r: String)
    ensures
        r@ == suit_row(true, cards@.len()),
{
    let mut row = String::new();
    let mut i: usize = 0;
    while i < cards.len()
        invariant
            i <= cards.len(),
            row@ == suit_row(true, i as nat),
        decreases cards.len() - i,
    {
        let pip = if i % 4 == 1 {
            construct_upper_club()
        } else if i % 4 == 2 {
            construct_upper_heart()
        } else if i % 4 == 3 {
            construct_upper_spade()
        } else {
            construct_upper_diamond()
        };
        row.append(pip.as_str());
        row.append(" ");
        i = i + 1;
        assert(row@ =~= suit_row(true, i as nat));
    }
    row
}

pub fn construct_lower_suit_row(cards: &Vec<char>) -> (r: String)
    ensures
        r@ == suit_row(false, cards@.len()),
{
    let mut row = String::new();
    let mut i: usize = 0;
    while i < cards.len()
        invariant
            i <= cards.len(),
            row@ == suit_row(false, i as nat),
        decreases cards.len() - i,
    {
        let pip = if i % 4 == 1 {
            construct_lower_club()
        } else if i % 4 == 2 {
            construct_lower_heart()
        } else if i % 4 == 3 {
            construct_lower_spade()
        } else {
            construct_lower_diamond()
        };
        row.append(pip.as_str());
        row.append(" ");
        i = i + 1;
        assert(row@ =~= suit_row(false, i as nat));
    }
    row
}

/// The six rows that draw `cards` side by side, top to bottom.
pub open spec fn card_rows(cards: Seq<char>) -> Seq<Seq<char>> {
    seq![
        repeat_piece(".------."@ + " "@, cards.len()),
        value_row(cards, "|"@, ".--. |"@),
        suit_row(true, cards.len()),
        suit_row(false, cards.len()),
        value_row(cards, "| '--'"@, "|"@),
        repeat_piece("`------'"@ + " "@, cards.len()),
    ]
}

/// The face-down block drawn in place of a hidden card, row by row.
pub open spec fn hidden_piece(row: int) -> Seq<char> {
    if row == 0 {
        ".------."@
    } else if row == 5 {
        "`------'"@
    } else {
        "|      |"@
    }
}

pub open spec fn views_of(rows: Seq<String>) -> Seq<Seq<char>> {
    rows.map_values(|r: String| r@)
}

/// The rows that draw every card of a hand face up.
pub fn hand_rows(cards: &Vec<char>) -> (rows: Vec<String>)
    ensures
        views_of(rows@) == card_rows(cards@),
{
    let mut rows: Vec<String> = Vec::new();
    rows.push(construct_top_row(cards));
    rows.push(construct_upper_value_row(cards));
    rows.push(construct_upper_suit_row(cards));
    rows.push(construct_lower_suit_row(cards));
    rows.push(construct_lower_value_row(cards));
    rows.push(construct_bottom_row(cards));
    assert(views_of(rows@) =~= card_rows(cards@));
    rows
}

/// The rows that draw a hand whose first card lies face down: a blank block,
/// then the other cards face up.
pub fn hidden_hand_rows(cards: &Vec<char>) -> (rows: Vec<String>)
    requires
        cards@.len() >= 1,
    ensures
        rows@.len() == 6,
        forall|i: int|
            0 <= i < 6 ==> #[trigger] rows@[i]@ == hidden_piece(i) + " "@ + card_rows(
                cards@.drop_first(),
            )[i],
{
    let mut shown: Vec<char> = Vec::new();
    let mut k: usize = 1;
    while k < cards.len()
        invariant
            1 <= k <= cards.len(),
            shown@ == cards@.subrange(1, k as int),
        decreases cards.len() - k,
    {
        shown.push(cards[k]);
        k = k + 1;
        assert(shown@ =~= cards@.subrange(1, k as int));
    }
    assert(shown@ =~= cards@.drop_first());
    let face_up = hand_rows(&shown);
    assert(face_up@.len() == views_of(face_up@).len());
    let mut rows: Vec<String> = Vec::new();
    let mut i: usize = 0;
    while i < 6
        invariant
            i <= 6,
            cards@.len() >= 1,
            face_up@.len() == 6,
            views_of(face_up@) == card_rows(shown@),
            shown@ == cards@.drop_first(),
            rows@.len() == i,
            forall|j: int|
                0 <= j < i ==> #[trigger] rows@[j]@ == hidden_piece(j) + " "@ + card_rows(
                    shown@,
                )[j],
        decreases 6 - i,
    {
        let mut row = if i == 0 {
            String::from_str(".------.")
        } else if i == 5 {
            String::from_str("`------'")
        } else {
            String::from_str("|      |")
        };
        row.append(" ");
        assert(face_up@[i as int]@ == views_of(face_up@)[i as int]);
        row.append(face_up[i].as_str());
        rows.push(row);
        i = i + 1;
    }
    rows
}

} // verus!
