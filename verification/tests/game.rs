use klondike::card::{Card, Suit, Value};
use klondike::logic::{Klondike, Stock};
use klondike::renderer::{handle_event, Reaction, Sprite};
use klondike::renderer::{CardLocation, CardTarget, GameEvent};

fn card(n: usize, suit: Suit, face_up: bool) -> Card {
    Card::new(Value::from_rank(n), suit, face_up)
}

fn target(location: CardLocation, col_idx: usize, card_idx: usize) -> CardTarget {
    CardTarget { location, col_idx, card_idx }
}

/// A fresh deck in making order: by value from the Ace, each value in the four suits.
fn ordered_deck() -> Vec<Card> {
    let mut cards = Vec::new();
    for i in 0..52usize {
        cards.push(Card::new(Value::from_rank(i / 4 + 1), Suit::from(i % 4), false));
    }
    cards
}

fn all_cards(k: &Klondike) -> Vec<(Value, Suit)> {
    let mut v: Vec<(Value, Suit)> = Vec::new();
    for col in k.tableau.cols.iter() {
        v.extend(col.iter().map(|c| (c.value, c.suit)));
    }
    for pile in k.foundation.piles.iter() {
        v.extend(pile.0.iter().map(|c| (c.value, c.suit)));
    }
    v.extend(k.stock.cards.iter().map(|c| (c.value, c.suit)));
    v.extend(k.cards_in_play.0.iter().map(|c| (c.value, c.suit)));
    v.sort();
    v
}

/// An empty table with the given columns, stock and hand.
fn table(cols: Vec<(usize, Vec<Card>)>, stock: Vec<Card>) -> Klondike {
    let mut k = Klondike::deal_from(Vec::new());
    for (i, col) in cols {
        k.tableau.cols[i] = col;
    }
    k.stock = Stock { cards: stock, visible_idx: None };
    k
}

#[test]
fn new_game_deals_the_whole_deck() {
    let k = Klondike::new();
    for i in 0..7 {
        assert_eq!(k.tableau.cols[i].len(), i + 1);
        assert!(k.tableau.cols[i].last().unwrap().face_up);
        assert!(k.tableau.cols[i][..i].iter().all(|c| !c.face_up));
    }
    assert_eq!(k.stock.cards.len(), 24);
    assert_eq!(k.stock.visible_idx, None);
    assert!(k.cards_in_play.0.is_empty());
    assert_eq!(k.statistics.moves, 0);
    let mut expected: Vec<(Value, Suit)> = ordered_deck().iter().map(|c| (c.value, c.suit)).collect();
    expected.sort();
    assert_eq!(all_cards(&k), expected);
}

#[test]
fn deal_from_an_ordered_deck() {
    let deck = ordered_deck();
    let k = Klondike::deal_from(deck.clone());
    assert_eq!(k.tableau.cols[0], vec![Card { face_up: true, ..deck[51] }]);
    assert_eq!(k.tableau.cols[1], vec![deck[49], Card { face_up: true, ..deck[50] }]);
    assert_eq!(k.stock.cards[..], deck[..24]);
    assert!(k.foundation.piles.iter().all(|p| p.0.is_empty() && !p.1));
    assert!(!k.is_game_over());
}

#[test]
fn empty_table_is_game_over() {
    let k = table(Vec::new(), Vec::new());
    assert!(k.is_game_over());
}

#[test]
fn game_not_over_with_stock_cards() {
    let k = table(Vec::new(), vec![card(1, Suit::Hearts, false)]);
    assert!(!k.is_game_over());
}

#[test]
fn game_not_over_with_a_flagged_short_pile() {
    let mut k = table(Vec::new(), Vec::new());
    k.foundation.piles[2] = (vec![card(1, Suit::Clubs, true)], true);
    assert!(!k.is_game_over());
}

#[test]
fn move_a_run_between_columns_and_turn_up_the_card_below() {
    let mut k = table(
        vec![
            (0, vec![card(9, Suit::Clubs, false), card(8, Suit::Hearts, true), card(7, Suit::Spades, true)]),
            (3, vec![card(9, Suit::Spades, true)]),
        ],
        Vec::new(),
    );
    assert!(k.primary_action_at(target(CardLocation::Tableau, 0, 1)).is_ok());
    assert_eq!(k.cards_in_play.0.len(), 2);
    assert_eq!(k.tableau.cols[0].len(), 1);
    assert!(k.primary_action_at(target(CardLocation::Tableau, 3, 0)).is_ok());
    assert!(k.cards_in_play.0.is_empty());
    assert_eq!(
        k.tableau.cols[3],
        vec![card(9, Suit::Spades, true), card(8, Suit::Hearts, true), card(7, Suit::Spades, true)]
    );
    assert_eq!(k.tableau.cols[0], vec![card(9, Suit::Clubs, true)]);
}

#[test]
fn refused_move_puts_the_cards_back() {
    let mut k = table(
        vec![(0, vec![card(5, Suit::Hearts, true)]), (1, vec![card(9, Suit::Spades, true)])],
        Vec::new(),
    );
    k.primary_action_at(target(CardLocation::Tableau, 0, 0)).unwrap();
    k.primary_action_at(target(CardLocation::Tableau, 1, 0)).unwrap();
    assert!(k.cards_in_play.0.is_empty());
    assert_eq!(k.tableau.cols[0], vec![card(5, Suit::Hearts, true)]);
    assert_eq!(k.tableau.cols[1], vec![card(9, Suit::Spades, true)]);
}

#[test]
fn clicking_a_face_down_card_picks_up_nothing() {
    let mut k = table(vec![(2, vec![card(5, Suit::Hearts, false)])], Vec::new());
    k.primary_action_at(target(CardLocation::Tableau, 2, 0)).unwrap();
    assert!(k.cards_in_play.0.is_empty());
    assert_eq!(k.cards_in_play.1, target(CardLocation::Tableau, 2, 0));
    assert_eq!(k.tableau.cols[2].len(), 1);
}

#[test]
fn tableau_card_to_foundation() {
    let mut k = table(vec![(0, vec![card(3, Suit::Clubs, false), card(1, Suit::Diamonds, true)])], Vec::new());
    k.primary_action_at(target(CardLocation::Tableau, 0, 1)).unwrap();
    k.primary_action_at(target(CardLocation::Foundation, 1, 0)).unwrap();
    assert!(k.cards_in_play.0.is_empty());
    assert_eq!(k.foundation.piles[1].0, vec![card(1, Suit::Diamonds, true)]);
    assert_eq!(k.tableau.cols[0], vec![card(3, Suit::Clubs, true)]);
}

#[test]
fn foundation_refuses_and_the_card_goes_back() {
    let mut k = table(vec![(0, vec![card(2, Suit::Diamonds, true)])], Vec::new());
    k.primary_action_at(target(CardLocation::Tableau, 0, 0)).unwrap();
    k.primary_action_at(target(CardLocation::Foundation, 1, 0)).unwrap();
    assert!(k.cards_in_play.0.is_empty());
    assert!(k.foundation.piles[1].0.is_empty());
    assert_eq!(k.tableau.cols[0], vec![card(2, Suit::Diamonds, true)]);
}

#[test]
fn foundation_ignores_a_run() {
    let mut k = table(
        vec![(0, vec![card(2, Suit::Spades, true), card(1, Suit::Hearts, true)])],
        Vec::new(),
    );
    k.primary_action_at(target(CardLocation::Tableau, 0, 0)).unwrap();
    k.primary_action_at(target(CardLocation::Foundation, 0, 0)).unwrap();
    assert_eq!(k.cards_in_play.0.len(), 2);
    assert!(k.foundation.piles[0].0.is_empty());
}

#[test]
fn foundation_card_to_tableau() {
    let mut k = table(vec![(5, vec![card(2, Suit::Spades, true)])], Vec::new());
    k.foundation.piles[0].0 = vec![card(1, Suit::Hearts, true)];
    k.primary_action_at(target(CardLocation::Foundation, 0, 0)).unwrap();
    assert_eq!(k.cards_in_play.0, vec![card(1, Suit::Hearts, true)]);
    assert!(k.foundation.piles[0].0.is_empty());
    k.primary_action_at(target(CardLocation::Tableau, 5, 0)).unwrap();
    assert_eq!(k.tableau.cols[5], vec![card(2, Suit::Spades, true), card(1, Suit::Hearts, true)]);
}

#[test]
fn empty_foundation_pile_gives_nothing() {
    let mut k = table(Vec::new(), Vec::new());
    k.primary_action_at(target(CardLocation::Foundation, 2, 0)).unwrap();
    assert!(k.cards_in_play.0.is_empty());
}

#[test]
fn stock_card_to_tableau() {
    let mut k = table(
        vec![(0, vec![card(8, Suit::Clubs, true)])],
        vec![card(4, Suit::Spades, false), card(7, Suit::Diamonds, false)],
    );
    k.primary_action_at(target(CardLocation::Stock, 0, 0)).unwrap();
    assert_eq!(k.stock.visible_idx, Some(1));
    k.primary_action_at(target(CardLocation::Stock, 1, 0)).unwrap();
    assert_eq!(k.cards_in_play.0, vec![card(7, Suit::Diamonds, true)]);
    assert_eq!(k.cards_in_play.1, target(CardLocation::Stock, 1, 1));
    assert_eq!(k.stock.cards.len(), 1);
    k.primary_action_at(target(CardLocation::Tableau, 0, 0)).unwrap();
    assert_eq!(k.tableau.cols[0], vec![card(8, Suit::Clubs, true), card(7, Suit::Diamonds, true)]);
    assert_eq!(k.stock.visible_idx, None);
}

#[test]
fn refused_stock_card_goes_back_to_its_place() {
    let mut k = table(
        vec![(0, vec![card(8, Suit::Hearts, true)])],
        vec![card(4, Suit::Spades, false), card(7, Suit::Diamonds, false)],
    );
    k.primary_action_at(target(CardLocation::Stock, 0, 0)).unwrap();
    k.primary_action_at(target(CardLocation::Stock, 1, 0)).unwrap();
    k.primary_action_at(target(CardLocation::Tableau, 0, 0)).unwrap();
    assert!(k.cards_in_play.0.is_empty());
    assert_eq!(k.stock.cards, vec![card(4, Suit::Spades, false), card(7, Suit::Diamonds, true)]);
    assert_eq!(k.stock.visible_idx, Some(1));
}

#[test]
fn clicking_the_stock_puts_held_cards_back() {
    let mut k = table(
        vec![(0, vec![card(8, Suit::Hearts, true), card(7, Suit::Clubs, true)])],
        vec![card(4, Suit::Spades, false)],
    );
    let before = k.tableau.cols[0].clone();
    k.primary_action_at(target(CardLocation::Tableau, 0, 0)).unwrap();
    assert!(k.tableau.cols[0].is_empty());
    k.primary_action_at(target(CardLocation::Stock, 0, 0)).unwrap();
    assert!(k.cards_in_play.0.is_empty());
    assert_eq!(k.tableau.cols[0], before);
    assert_eq!(k.stock.visible_idx, None);
}

#[test]
fn taking_the_stock_card_and_clicking_the_stock_restores_it() {
    let mut k = table(Vec::new(), vec![card(4, Suit::Spades, false), card(7, Suit::Diamonds, false)]);
    k.primary_action_at(target(CardLocation::Stock, 0, 0)).unwrap();
    let stock_before = k.stock.cards.clone();
    k.primary_action_at(target(CardLocation::Stock, 1, 0)).unwrap();
    k.primary_action_at(target(CardLocation::Stock, 1, 0)).unwrap();
    assert_eq!(k.stock.cards, stock_before);
    assert_eq!(k.stock.visible_idx, Some(1));
    assert!(k.cards_in_play.0.is_empty());
}

#[test]
fn turning_the_stock_len_plus_one_times_cycles() {
    let mut k = table(Vec::new(), vec![card(1, Suit::Hearts, false), card(2, Suit::Hearts, false), card(3, Suit::Hearts, false)]);
    k.primary_action_at(target(CardLocation::Stock, 0, 0)).unwrap();
    k.primary_action_at(target(CardLocation::Stock, 0, 0)).unwrap();
    let shown = k.stock.visible_idx;
    for _ in 0..4 {
        k.primary_action_at(target(CardLocation::Stock, 0, 0)).unwrap();
    }
    assert_eq!(k.stock.visible_idx, shown);
}

#[test]
fn many_clicks_keep_every_card() {
    let mut k = Klondike::deal_from(ordered_deck());
    let before = all_cards(&k);
    let targets = [
        target(CardLocation::Stock, 0, 0),
        target(CardLocation::Stock, 1, 0),
        target(CardLocation::Tableau, 3, 3),
        target(CardLocation::Foundation, 2, 0),
        target(CardLocation::Tableau, 6, 6),
        target(CardLocation::Tableau, 1, 0),
        target(CardLocation::Stock, 0, 0),
        target(CardLocation::Tableau, 0, 0),
        target(CardLocation::Foundation, 0, 0),
        target(CardLocation::Tableau, 5, 5),
        target(CardLocation::Tableau, 2, 2),
    ];
    for round in 0..20 {
        for (i, t) in targets.iter().enumerate() {
            if (round + i) % 3 != 0 {
                k.primary_action_at(*t).unwrap();
            }
        }
        assert_eq!(all_cards(&k), before);
    }
}

#[test]
fn cells_of_the_stock_and_foundation() {
    let k = table(Vec::new(), Vec::new());
    assert_eq!(k.get_card_at(0, 0), Some(target(CardLocation::Stock, 0, 0)));
    assert_eq!(k.get_card_at(6, 4), Some(target(CardLocation::Stock, 0, 0)));
    assert_eq!(k.get_card_at(7, 2), None);
    assert_eq!(k.get_card_at(8, 2), Some(target(CardLocation::Stock, 1, 0)));
    assert_eq!(k.get_card_at(16, 2), None);
    assert_eq!(k.get_card_at(24, 0), Some(target(CardLocation::Foundation, 0, 0)));
    assert_eq!(k.get_card_at(35, 3), Some(target(CardLocation::Foundation, 1, 0)));
    assert_eq!(k.get_card_at(54, 4), Some(target(CardLocation::Foundation, 3, 0)));
    assert_eq!(k.get_card_at(55, 4), None);
    assert_eq!(k.get_card_at(56, 1), None);
}

#[test]
fn cells_of_the_tableau() {
    let k = table(
        vec![(1, vec![card(9, Suit::Clubs, false), card(8, Suit::Hearts, true), card(7, Suit::Spades, true)])],
        Vec::new(),
    );
    // column 1 spans screen columns 8..15; its cards start at row 5, two rows apart
    assert_eq!(k.get_card_at(8, 5), Some(target(CardLocation::Tableau, 1, 0)));
    assert_eq!(k.get_card_at(9, 6), Some(target(CardLocation::Tableau, 1, 0)));
    assert_eq!(k.get_card_at(9, 7), Some(target(CardLocation::Tableau, 1, 1)));
    assert_eq!(k.get_card_at(14, 9), Some(target(CardLocation::Tableau, 1, 2)));
    assert_eq!(k.get_card_at(14, 13), Some(target(CardLocation::Tableau, 1, 2)));
    assert_eq!(k.get_card_at(14, 14), None);
    assert_eq!(k.get_card_at(15, 9), None);
    // an empty column answers on its first card's place
    assert_eq!(k.get_card_at(0, 5), Some(target(CardLocation::Tableau, 0, 0)));
    assert_eq!(k.get_card_at(50, 9), Some(target(CardLocation::Tableau, 6, 0)));
    assert_eq!(k.get_card_at(50, 10), None);
    assert_eq!(k.get_card_at(60, 9), None);
}

#[test]
fn layout_of_a_game() {
    let mut k = table(
        vec![(0, vec![card(9, Suit::Clubs, false), card(8, Suit::Hearts, true), card(7, Suit::Spades, true)])],
        vec![card(4, Suit::Spades, true)],
    );
    k.stock.visible_idx = Some(0);
    k.foundation.piles[2].0 = vec![card(1, Suit::Clubs, true)];
    let hovered = Some(target(CardLocation::Tableau, 0, 1));
    let sprites = k.layout(0, 0, hovered, (30, 20));
    let expected = vec![
        Sprite::Card { card: card(9, Suit::Clubs, false), x: 0, y: 5, active: false },
        Sprite::Card { card: card(8, Suit::Hearts, true), x: 0, y: 7, active: true },
        Sprite::Card { card: card(7, Suit::Spades, true), x: 0, y: 9, active: true },
        Sprite::Placeholder { card: card(1, Suit::Hearts, false), x: 24, y: 0, active: false, show_suit: true },
        Sprite::Placeholder { card: card(1, Suit::Diamonds, false), x: 32, y: 0, active: false, show_suit: true },
        Sprite::Card { card: card(1, Suit::Clubs, true), x: 40, y: 0, active: false },
        Sprite::Placeholder { card: card(1, Suit::Spades, false), x: 48, y: 0, active: false, show_suit: true },
        Sprite::Card { card: Card::default(), x: 0, y: 0, active: false },
        Sprite::Card { card: card(4, Suit::Spades, true), x: 8, y: 0, active: false },
    ];
    assert_eq!(sprites, expected);
}

#[test]
fn layout_hovering_an_empty_column_and_holding_cards() {
    let mut k = table(vec![(2, vec![card(5, Suit::Hearts, true)])], Vec::new());
    k.primary_action_at(target(CardLocation::Tableau, 2, 0)).unwrap();
    let sprites = k.layout(1, 2, Some(target(CardLocation::Tableau, 4, 0)), (10, 11));
    assert_eq!(
        sprites[0],
        Sprite::Placeholder { card: card(1, Suit::Hearts, false), x: 33, y: 7, active: true, show_suit: false }
    );
    assert_eq!(*sprites.last().unwrap(), Sprite::Card { card: card(5, Suit::Hearts, true), x: 10, y: 11, active: true });
    assert_eq!(sprites.len(), 1 + 4 + 1 + 1);
}

#[test]
fn layout_hovering_the_stock() {
    let k = table(Vec::new(), Vec::new());
    let sprites = k.stock.layout(0, 0, Some(target(CardLocation::Stock, 0, 0)));
    assert_eq!(sprites, vec![Sprite::Card { card: Card::default(), x: 0, y: 0, active: true }]);
}

#[test]
fn events_of_the_game() {
    let mut k = table(vec![(0, vec![card(5, Suit::Hearts, true)])], Vec::new());
    assert_eq!(handle_event(&mut k, GameEvent::Quit).unwrap(), Reaction::Quit);
    assert_eq!(
        handle_event(&mut k, GameEvent::MouseMove { col: 2, row: 6 }).unwrap(),
        Reaction::Hover(Some(target(CardLocation::Tableau, 0, 0)))
    );
    assert_eq!(handle_event(&mut k, GameEvent::MouseMove { col: 70, row: 6 }).unwrap(), Reaction::Hover(None));
    assert_eq!(handle_event(&mut k, GameEvent::Resize { width: 80, height: 24 }).unwrap(), Reaction::Redraw);
    assert_eq!(handle_event(&mut k, GameEvent::MouseDrag { col: 2, row: 6 }).unwrap(), Reaction::Redraw);
    assert_eq!(handle_event(&mut k, GameEvent::Ignore).unwrap(), Reaction::Redraw);
    assert!(k.cards_in_play.0.is_empty());
    assert_eq!(handle_event(&mut k, GameEvent::MouseDown { col: 2, row: 6 }).unwrap(), Reaction::Redraw);
    assert_eq!(k.cards_in_play.0, vec![card(5, Suit::Hearts, true)]);
    assert_eq!(handle_event(&mut k, GameEvent::MouseDown { col: 70, row: 70 }).unwrap(), Reaction::Redraw);
    assert_eq!(k.cards_in_play.0.len(), 1);
}

#[test]
fn every_screen_cell_names_an_existing_place() {
    let k = Klondike::deal_from(ordered_deck());
    for x in 0..90u16 {
        for y in 0..40u16 {
            if let Some(t) = k.get_card_at(x, y) {
                match t.location {
                    CardLocation::Tableau => {
                        assert!(t.col_idx < 7);
                        assert!(t.card_idx <= k.tableau.cols[t.col_idx].len());
                    }
                    CardLocation::Foundation => assert!(t.col_idx < 4),
                    CardLocation::Stock => assert!(t.col_idx < 2),
                }
            }
        }
    }
}

#[test]
fn foundation_piles_stay_in_order() {
    // Aces and twos on top of the columns, so that clicks can build the foundation.
    let mut k = table(
        vec![
            (0, vec![card(2, Suit::Hearts, true), card(1, Suit::Hearts, true)]),
            (1, vec![card(1, Suit::Spades, true)]),
            (2, vec![card(2, Suit::Spades, true)]),
            (3, vec![card(3, Suit::Hearts, true)]),
        ],
        Vec::new(),
    );
    let clicks = [
        target(CardLocation::Tableau, 0, 1),
        target(CardLocation::Foundation, 0, 0),
        target(CardLocation::Tableau, 2, 0),
        target(CardLocation::Foundation, 3, 0),
        target(CardLocation::Tableau, 1, 0),
        target(CardLocation::Foundation, 3, 0),
        target(CardLocation::Tableau, 2, 0),
        target(CardLocation::Foundation, 3, 0),
        target(CardLocation::Tableau, 3, 0),
        target(CardLocation::Foundation, 0, 0),
        target(CardLocation::Stock, 0, 0),
        target(CardLocation::Tableau, 0, 0),
        target(CardLocation::Foundation, 0, 0),
        target(CardLocation::Tableau, 3, 0),
        target(CardLocation::Foundation, 0, 0),
        target(CardLocation::Foundation, 0, 0),
        target(CardLocation::Stock, 0, 0),
    ];
    for t in clicks.iter() {
        k.primary_action_at(*t).unwrap();
        for (i, pile) in k.foundation.piles.iter().enumerate() {
            for (j, c) in pile.0.iter().enumerate() {
                assert_eq!(c.suit, Suit::from(i));
                assert_eq!(c.value.rank(), j + 1);
            }
        }
    }
    assert_eq!(k.foundation.piles[0].0.len(), 3);
    assert_eq!(k.foundation.piles[3].0.len(), 2);
}

#[test]
fn new_game_faces_and_hand_origin() {
    let k = Klondike::new();
    assert_eq!(k.cards_in_play.1, CardTarget::default());
    assert!(k.stock.cards.iter().all(|c| !c.face_up));
    for col in k.tableau.cols.iter() {
        for (j, c) in col.iter().enumerate() {
            assert_eq!(c.face_up, j == col.len() - 1);
        }
    }
}

#[test]
fn a_long_column_away_from_the_pointer_is_no_matter() {
    let mut k = table(Vec::new(), Vec::new());
    k.tableau.cols[6] = vec![card(1, Suit::Hearts, false); 40000];
    assert_eq!(k.get_card_at(2, 6), Some(target(CardLocation::Tableau, 0, 0)));
    assert_eq!(handle_event(&mut k, GameEvent::Quit).unwrap(), Reaction::Quit);
    assert_eq!(handle_event(&mut k, GameEvent::MouseDown { col: 10, row: 2 }).unwrap(), Reaction::Redraw);
}

#[test]
fn a_full_pass_of_the_stock_turns_every_card_up() {
    let cards = vec![card(1, Suit::Hearts, false), card(2, Suit::Clubs, false), card(3, Suit::Spades, false)];
    let mut s = Stock { cards: cards.clone(), visible_idx: None };
    for m in 1..=3usize {
        s.get_new_visible();
        assert_eq!(s.visible_idx, Some(3 - m));
    }
    s.get_new_visible();
    assert_eq!(s.visible_idx, None);
    for (c, d) in s.cards.iter().zip(cards.iter()) {
        assert_eq!(*c, Card { face_up: true, ..*d });
    }
}
