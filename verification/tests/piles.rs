use klondike::card::{Card, Suit, Value};
use klondike::logic::{Foundation, GameError, Stock, Tableau};
use klondike::renderer::{CardLocation, CardTarget};

fn card(n: usize, suit: Suit, face_up: bool) -> Card {
    Card::new(Value::from_rank(n), suit, face_up)
}

fn empty_tableau() -> Tableau {
    Tableau { cols: Default::default() }
}

fn tableau_target(col_idx: usize, card_idx: usize) -> CardTarget {
    CardTarget { location: CardLocation::Tableau, col_idx, card_idx }
}

fn numbered_stock(n: usize) -> Stock {
    let mut cards = Vec::new();
    for i in 0..n {
        cards.push(card(i % 13 + 1, Suit::from(i % 4), false));
    }
    Stock { cards, visible_idx: None }
}

#[test]
fn place_nothing_is_refused() {
    let mut t = empty_tableau();
    let r = t.place_cards_in_col(&Vec::new(), 3);
    assert!(matches!(r, Err(GameError::InvalidMove("No cards to place"))));
}

#[test]
fn place_nothing_on_missing_column_is_refused_without_panic() {
    let mut t = empty_tableau();
    let r = t.place_cards_in_col(&Vec::new(), 9);
    assert!(matches!(r, Err(GameError::InvalidMove("No cards to place"))));
}

#[test]
fn only_kings_on_empty_columns() {
    let mut t = empty_tableau();
    let r = t.place_cards_in_col(&vec![card(12, Suit::Hearts, true)], 0);
    assert!(matches!(r, Err(GameError::InvalidMove("Only Kings can be placed on empty tableau columns"))));
    assert!(t.cols[0].is_empty());
    let king = card(13, Suit::Spades, true);
    assert!(t.place_cards_in_col(&vec![king], 0).is_ok());
    assert_eq!(t.cols[0], vec![king]);
}

#[test]
fn runs_alternate_colours() {
    let mut t = empty_tableau();
    t.cols[2] = vec![card(8, Suit::Clubs, true)];
    let r = t.place_cards_in_col(&vec![card(7, Suit::Spades, true)], 2);
    assert!(matches!(r, Err(GameError::InvalidMove("Invalid suit for the target column"))));
    let r = t.place_cards_in_col(&vec![card(7, Suit::Clubs, true)], 2);
    assert!(matches!(r, Err(GameError::InvalidMove("Invalid suit for the target column"))));
    assert_eq!(t.cols[2].len(), 1);
}

#[test]
fn runs_descend_by_one() {
    let mut t = empty_tableau();
    t.cols[1] = vec![card(8, Suit::Hearts, true)];
    let r = t.place_cards_in_col(&vec![card(6, Suit::Spades, true)], 1);
    assert!(matches!(r, Err(GameError::InvalidMove("Invalid value for the target column"))));
    let r = t.place_cards_in_col(&vec![card(9, Suit::Spades, true)], 1);
    assert!(matches!(r, Err(GameError::InvalidMove("Invalid value for the target column"))));
    let run = vec![card(7, Suit::Spades, true), card(6, Suit::Diamonds, true)];
    assert!(t.place_cards_in_col(&run, 1).is_ok());
    assert_eq!(
        t.cols[1],
        vec![card(8, Suit::Hearts, true), card(7, Suit::Spades, true), card(6, Suit::Diamonds, true)]
    );
}

#[test]
fn valid_cards_are_face_up_runs() {
    let mut t = empty_tableau();
    t.cols[4] = vec![card(9, Suit::Hearts, false), card(5, Suit::Clubs, true), card(4, Suit::Hearts, true)];
    assert!(t.get_valid_cards_from(tableau_target(4, 0)).is_none());
    assert!(t.get_valid_cards_from(tableau_target(4, 3)).is_none());
    assert!(t.get_valid_cards_from(tableau_target(7, 0)).is_none());
    assert_eq!(t.cols[4].len(), 3);
    let taken = t.get_valid_cards_from(tableau_target(4, 1)).unwrap();
    assert_eq!(taken, vec![card(5, Suit::Clubs, true), card(4, Suit::Hearts, true)]);
    assert_eq!(t.cols[4], vec![card(9, Suit::Hearts, false)]);
}

#[test]
fn tableau_deal_takes_one_to_seven_cards_from_the_top() {
    let mut stock = numbered_stock(52);
    let all = stock.cards.clone();
    let t = Tableau::new(&mut stock);
    assert_eq!(stock.cards.len(), 24);
    assert_eq!(stock.cards[..], all[..24]);
    let mut end = 52;
    for i in 0..7 {
        let col = &t.cols[i];
        assert_eq!(col.len(), i + 1);
        let start = end - (i + 1);
        for (k, c) in col.iter().enumerate() {
            assert_eq!(c.value, all[start + k].value);
            assert_eq!(c.suit, all[start + k].suit);
            assert_eq!(c.face_up, k == i);
        }
        end = start;
    }
}

#[test]
fn tableau_deal_from_a_short_stock() {
    let mut stock = numbered_stock(4);
    let t = Tableau::new(&mut stock);
    assert!(stock.cards.is_empty());
    assert_eq!(t.cols[0].len(), 1);
    assert_eq!(t.cols[1].len(), 2);
    assert_eq!(t.cols[1][1].face_up, true);
    assert_eq!(t.cols[1][0].face_up, false);
    assert_eq!(t.cols[2].len(), 1);
    assert!(t.cols[3].is_empty());
}

#[test]
fn foundation_starts_empty() {
    let f = Foundation::new();
    for pile in f.piles.iter() {
        assert!(pile.0.is_empty());
        assert!(!pile.1);
    }
}

#[test]
fn foundation_wrong_suit() {
    let mut f = Foundation::new();
    let r = f.place_card_on_pile(card(1, Suit::Clubs, true), Suit::Hearts);
    assert!(matches!(r, Err(GameError::WrongSuit)));
}

#[test]
fn foundation_needs_an_ace_first() {
    let mut f = Foundation::new();
    let r = f.place_card_on_pile(card(2, Suit::Hearts, true), Suit::Hearts);
    assert!(matches!(r, Err(GameError::InvalidMove("Only Aces can be placed on an empty foundation pile"))));
}

#[test]
fn foundation_goes_up_one_at_a_time() {
    let mut f = Foundation::new();
    assert!(f.place_card_on_pile(card(1, Suit::Spades, true), Suit::Spades).is_ok());
    let r = f.place_card_on_pile(card(3, Suit::Spades, true), Suit::Spades);
    assert!(matches!(r, Err(GameError::InvalidMove("Invalid card placement"))));
    assert!(f.place_card_on_pile(card(2, Suit::Spades, true), Suit::Spades).is_ok());
    assert_eq!(f.piles[3].0.len(), 2);
    assert!(!f.piles[3].1);
}

#[test]
fn foundation_flags_a_king() {
    let mut f = Foundation::new();
    for n in 1..=13 {
        assert!(f.place_card_on_pile(card(n, Suit::Diamonds, true), Suit::Diamonds).is_ok());
        assert_eq!(f.piles[1].1, n == 13);
    }
    assert_eq!(f.take_card_from_pile(Suit::Diamonds), Some(card(13, Suit::Diamonds, true)));
    assert!(f.piles[1].1);
    assert_eq!(f.piles[1].0.len(), 12);
}

#[test]
fn foundation_take_from_empty_pile() {
    let mut f = Foundation::new();
    assert_eq!(f.take_card_from_pile(Suit::Clubs), None);
}

#[test]
fn place_then_take_gives_the_card_back() {
    let mut f = Foundation::new();
    let ace = card(1, Suit::Hearts, true);
    assert!(f.place_card_on_pile(ace, Suit::Hearts).is_ok());
    assert_eq!(f.take_card_from_pile(Suit::Hearts), Some(ace));
    assert!(f.piles[0].0.is_empty());
}

#[test]
fn stock_take_n() {
    let mut s = numbered_stock(5);
    let all = s.cards.clone();
    let top = s.take_n(2);
    assert_eq!(top, all[3..].to_vec());
    assert_eq!(s.cards, all[..3].to_vec());
    let rest = s.take_n(10);
    assert_eq!(rest, all[..3].to_vec());
    assert!(s.cards.is_empty());
    assert!(s.take_n(1).is_empty());
}

#[test]
fn stock_turns_from_the_top_down_then_hides() {
    let mut s = numbered_stock(3);
    s.get_new_visible();
    assert_eq!(s.visible_idx, Some(2));
    assert!(s.cards[2].face_up);
    s.get_new_visible();
    assert_eq!(s.visible_idx, Some(1));
    s.get_new_visible();
    assert_eq!(s.visible_idx, Some(0));
    s.get_new_visible();
    assert_eq!(s.visible_idx, None);
    s.get_new_visible();
    assert_eq!(s.visible_idx, Some(2));
    assert!(s.cards.iter().all(|c| c.face_up));
}

#[test]
fn empty_stock_shows_nothing() {
    let mut s = numbered_stock(0);
    s.visible_idx = Some(3);
    s.get_new_visible();
    assert_eq!(s.visible_idx, None);
    assert!(s.peek_visible().is_none());
}

#[test]
fn stock_peek_and_take_visible() {
    let mut s = numbered_stock(4);
    assert!(s.peek_visible().is_none());
    assert!(s.take_visible().is_none());
    s.get_new_visible();
    let shown = *s.peek_visible().unwrap();
    assert_eq!(shown, s.cards[3]);
    assert_eq!(s.take_visible(), Some((shown, 3)));
    assert_eq!(s.cards.len(), 3);
    assert_eq!(s.visible_idx, None);
}

#[test]
fn peek_past_the_end_shows_nothing() {
    let mut s = numbered_stock(2);
    s.visible_idx = Some(5);
    assert!(s.peek_visible().is_none());
}

#[test]
fn new_stock_is_a_full_shuffled_deck() {
    let s = Stock::new();
    assert_eq!(s.cards.len(), 52);
    assert_eq!(s.visible_idx, None);
    for suit in 0..4usize {
        for n in 1..=13usize {
            let wanted = card(n, Suit::from(suit), false);
            assert_eq!(s.cards.iter().filter(|c| **c == wanted).count(), 1);
        }
    }
}

#[test]
fn new_stock_is_shuffled() {
    // The chance that a shuffle leaves the deck in making order is 1 in 52!.
    let s = Stock::new();
    let mut ordered = Vec::new();
    for i in 0..52usize {
        ordered.push(card(i / 4 + 1, Suit::from(i % 4), false));
    }
    assert_ne!(s.cards, ordered);
}

#[test]
fn picking_up_undoes_placing_a_run() {
    let mut t = empty_tableau();
    t.cols[6] = vec![card(10, Suit::Diamonds, false), card(9, Suit::Clubs, true)];
    let before = t.cols[6].clone();
    let run = vec![card(8, Suit::Hearts, true), card(7, Suit::Spades, true)];
    assert!(t.place_cards_in_col(&run, 6).is_ok());
    let back = t.get_valid_cards_from(tableau_target(6, 2)).unwrap();
    assert_eq!(back, run);
    assert_eq!(t.cols[6], before);
}
