//! Places on the table and the player's events; where the piles of a game stand on the
//! screen, which card a screen cell shows, and the sprites that draw a game.
//!
//! Cards are 7 cells wide and 5 high, on a grid of 8 cells: the stock and its shown card at
//! the top left, the four foundation piles at the top from column 24, and the seven tableau
//! columns from row 5, where each card covers the top 2 rows of the card before it.
use vstd::prelude::*;

use crate::card::{Card, Suit, Value};
use crate::logic::{Foundation, GameError, Klondike, Stock, Tableau};

verus! {

/// The three areas of the table.
#[derive(Debug, Clone, Copy, PartialEq, Eq, Structural, Default)]
pub enum CardLocation {
    #[default]
    Tableau,
    Foundation,
    Stock,
}

/// A place on the table: an area, a column (or pile) in it, and a card in that column.
#[derive(Debug, Clone, Copy, PartialEq, Eq, Structural, Default)]
pub struct CardTarget {
    pub location: CardLocation,
    pub col_idx: usize,
    pub card_idx: usize,
}

/// What the player did, as read from the terminal.
#[derive(Debug, Clone, Copy, PartialEq, Eq, Structural)]
pub enum GameEvent {
    Quit,
    MouseDown { col: u16, row: u16 },
    MouseDrag { col: u16, row: u16 },
    MouseMove { col: u16, row: u16 },
    Resize { width: u16, height: u16 },
    Ignore,
}


/// The most cards the tableau column under the pointer may hold for its rows to fit the
/// screen's coordinates.
pub const MAX_COLUMN_CARDS: usize = 32763;

/// Whether the tableau column under screen column `x`, if any, holds few enough cards for its
/// rows to fit the screen's coordinates.
pub open spec fn pointer_column_fits(cols: Seq<Seq<Card>>, x: int) -> bool {
    (0 <= x < 56 && x % 8 < 7) ==> cols[x / 8].len() <= MAX_COLUMN_CARDS
}

/// Whether screen column `x` lies on a card whose left edge is at column `start`.
pub open spec fn in_band(x: int, start: int) -> bool {
    start <= x < start + 7
}

/// The place on the table that the screen cell at column `x` and row `y` shows, given the
/// tableau columns `cols`; `None` for a cell that shows no card or pile.
pub open spec fn target_at(cols: Seq<Seq<Card>>, x: int, y: int) -> Option<CardTarget> {
    if y < 5 {
        if in_band(x, 0) {
            Some(CardTarget { location: CardLocation::Stock, col_idx: 0, card_idx: 0 })
        } else if in_band(x, 8) {
            Some(CardTarget { location: CardLocation::Stock, col_idx: 1, card_idx: 0 })
        } else if 24 <= x < 56 && (x - 24) % 8 < 7 {
            Some(CardTarget { location: CardLocation::Foundation, col_idx: ((x - 24) / 8) as usize, card_idx: 0 })
        } else {
            None
        }
    } else if x < 56 && x % 8 < 7 {
        let c = x / 8;
        let n = cols[c].len() as int;
        if n == 0 {
            if y < 10 {
                Some(CardTarget { location: CardLocation::Tableau, col_idx: c as usize, card_idx: 0 })
            } else {
                None
            }
        } else if y < 5 + 2 * (n - 1) {
            Some(CardTarget { location: CardLocation::Tableau, col_idx: c as usize, card_idx: ((y - 5) / 2) as usize })
        } else if y < 2 * n + 8 {
            Some(CardTarget { location: CardLocation::Tableau, col_idx: c as usize, card_idx: (n - 1) as usize })
        } else {
            None
        }
    } else {
        None
    }
}

/// A screen column lies on the band of grid cell `c` exactly when its cell is `c` and it is
/// not the gap column of that cell.
proof fn lemma_band(x: int, c: int)
    requires
        x >= 0,
    ensures
        (x / 8 == c && x % 8 < 7) <==> in_band(x, 8 * c),
{
    assert(x == 8 * (x / 8) + x % 8 && 0 <= x % 8 < 8) by (nonlinear_arith)
        requires
            x >= 0,
    ;
}

/// A row in the two rows that card `k` of a tableau column leaves showing belongs to that card.
proof fn lemma_row(y: int, k: int)
    requires
        5 + 2 * k <= y < 7 + 2 * k,
    ensures
        (y - 5) / 2 == k,
{
    assert((y - 5) == 2 * ((y - 5) / 2) + (y - 5) % 2 && 0 <= (y - 5) % 2 < 2) by (nonlinear_arith);
}

impl Klondike {
    /// The place on the table shown by the screen cell at `mouse_col`, `mouse_row` (see
    /// `target_at`).
    pub fn get_card_at(&self, mouse_col: u16, mouse_row: u16) -> (r: Option<CardTarget>)
        requires
            pointer_column_fits(self@.cols, mouse_col as int),
        ensures
            r == target_at(self@.cols, mouse_col as int, mouse_row as int),
    {
        let ghost x = mouse_col as int;
        let ghost y = mouse_row as int;
        // stock
        let mut i: usize = 0;
        while i < 2
            invariant
                i <= 2,
                x == mouse_col as int,
                y == mouse_row as int,
                forall|j: int| 0 <= j < i ==> !(y < 5 && #[trigger] in_band(x, 8 * j)),
            decreases 2 - i,
        {
            let iu: u16 = i as u16;
            assert(iu == i);
            let start_x: u16 = iu * 8;
            let end_x: u16 = start_x + 7;
            let card_height: u16 = 5;
            let start_y: u16 = 0;
            let end_y: u16 = start_y + card_height;
            if mouse_col >= start_x && mouse_col < end_x && mouse_row >= start_y && mouse_row < end_y {
                assert(in_band(x, 8 * i));
                return Some(CardTarget { col_idx: i, card_idx: 0, location: CardLocation::Stock });
            }
            i += 1;
        }
        assert(!(y < 5 && in_band(x, 0)) && !(y < 5 && in_band(x, 8))) by {
            assert(in_band(x, 8 * 0int) == in_band(x, 0));
            assert(in_band(x, 8 * 1int) == in_band(x, 8));
        }
        // foundation
        let mut col_idx: usize = 0;
        while col_idx < 4
            invariant
                col_idx <= 4,
                x == mouse_col as int,
                y == mouse_row as int,
                !(y < 5 && in_band(x, 0)),
                !(y < 5 && in_band(x, 8)),
                forall|j: int| 0 <= j < col_idx ==> !(y < 5 && #[trigger] in_band(x, 8 * j + 24)),
            decreases 4 - col_idx,
        {
            let cu: u16 = col_idx as u16;
            assert(cu == col_idx);
            let start_x: u16 = cu * 8 + 24;
            let end_x: u16 = start_x + 7;
            if mouse_col < start_x || mouse_col >= end_x {
                col_idx += 1;
                continue;
            }
            let card_height: u16 = 5;
            let start_y: u16 = 0;
            let end_y: u16 = start_y + card_height;
            if mouse_row >= start_y && mouse_row < end_y {
                proof {
                    lemma_band(x - 24, col_idx as int);
                }
                return Some(CardTarget { col_idx, card_idx: 0, location: CardLocation::Foundation });
            }
            col_idx += 1;
        }
        assert(y < 5 ==> !(24 <= x < 56 && (x - 24) % 8 < 7)) by {
            if y < 5 && 24 <= x < 56 && (x - 24) % 8 < 7 {
                let j = (x - 24) / 8;
                lemma_band(x - 24, j);
                assert(0 <= j < 4) by (nonlinear_arith)
                    requires
                        24 <= x < 56,
                        j == (x - 24) / 8,
                ;
                assert(in_band(x, 8 * j + 24));
            }
        }
        // tableau
        let mut col_idx: usize = 0;
        while col_idx < 7
            invariant
                col_idx <= 7,
                x == mouse_col as int,
                y == mouse_row as int,
                pointer_column_fits(self@.cols, x),
                y < 5 ==> target_at(self@.cols, x, y) is None,
                (y >= 5 && x < 56 && x % 8 < 7 && x / 8 < col_idx) ==> target_at(self@.cols, x, y) is None,
            decreases 7 - col_idx,
        {
            let cu: u16 = col_idx as u16;
            assert(cu == col_idx);
            let start_x: u16 = cu * 8;
            let end_x: u16 = start_x + 7;
            proof {
                lemma_band(x, col_idx as int);
            }
            if mouse_col < start_x || mouse_col >= end_x {
                col_idx += 1;
                continue;
            }
            let col = &self.tableau.cols[col_idx];
            assert(col@ == self@.cols[col_idx as int]);
            assert(x / 8 == col_idx && x < 56 && x % 8 < 7);
            let total_cards = col.len();
            let mut current_y: u16 = 5;
            let mut card_idx: usize = 0;
            while card_idx < total_cards
                invariant
                    total_cards == col@.len(),
                    col_idx < 7,
                    col@ == self@.cols[col_idx as int],
                    x / 8 == col_idx && x < 56 && x % 8 < 7,
                    x == mouse_col as int,
                    y == mouse_row as int,
                    total_cards <= MAX_COLUMN_CARDS,
                    card_idx <= total_cards,
                    current_y == 5 + 2 * card_idx,
                    !(5 <= y < 5 + 2 * card_idx),
                    (card_idx == total_cards && total_cards > 0) ==> !(5 <= y < 2 * total_cards + 8),
                decreases total_cards - card_idx,
            {
                let is_last_card = card_idx == total_cards - 1;
                let card_height: u16 = if is_last_card { 5 } else { 2 };
                let start_y = current_y;
                let end_y = start_y + card_height;
                if mouse_row >= start_y && mouse_row < end_y {
                    proof {
                        if !is_last_card {
                            lemma_row(y, card_idx as int);
                        }
                    }
                    return Some(CardTarget { col_idx, card_idx, location: CardLocation::Tableau });
                }
                current_y += 2;
                card_idx += 1;
            }
            if total_cards == 0 {
                let start_y: u16 = 5;
                let end_y: u16 = start_y + 5;
                if mouse_row >= start_y && mouse_row < end_y {
                    return Some(CardTarget { col_idx, card_idx: 0, location: CardLocation::Tableau });
                }
            }
            col_idx += 1;
        }
        None
    }
}

/// Which card a cell of tableau column `c` shows, in screen arithmetic. The column covers the
/// screen columns from `8 * c` to `8 * c + 6`, from row 5 down. Each card but the last shows
/// its top two rows (see `law_tableau_card_cells`); the last card, or the place of an empty
/// column, is five rows tall; the rows below show nothing.
pub proof fn law_tableau_cells(cols: Seq<Seq<Card>>, c: int, x: int, y: int)
    requires
        0 <= c < 7,
        8 * c <= x < 8 * c + 7,
        y >= 5,
    ensures
        ({
            let n = cols[c].len() as int;
            let t = target_at(cols, x, y);
            &&& (n >= 1 && 5 + 2 * (n - 1) <= y < 5 + 2 * (n - 1) + 5) ==> t == Some(
                CardTarget { location: CardLocation::Tableau, col_idx: c as usize, card_idx: (n - 1) as usize },
            )
            &&& (n == 0 && y < 10) ==> t == Some(
                CardTarget { location: CardLocation::Tableau, col_idx: c as usize, card_idx: 0 },
            )
            &&& (n >= 1 && y >= 5 + 2 * (n - 1) + 5) ==> t is None
            &&& (n == 0 && y >= 10) ==> t is None
        }),
{
    lemma_band(x, c);
}

/// A card of a tableau column below its last card shows its top two rows: the cells of
/// column `c` at rows `5 + 2 * k` and `6 + 2 * k` show card `k`.
pub proof fn law_tableau_card_cells(cols: Seq<Seq<Card>>, c: int, k: int, x: int, y: int)
    requires
        0 <= c < 7,
        8 * c <= x < 8 * c + 7,
        0 <= k < cols[c].len() - 1,
        5 + 2 * k <= y < 7 + 2 * k,
    ensures
        target_at(cols, x, y) == Some(
            CardTarget { location: CardLocation::Tableau, col_idx: c as usize, card_idx: k as usize },
        ),
{
    lemma_band(x, c);
    lemma_row(y, k);
}

/// Which place a cell of the top five rows shows: screen columns 0 to 6 the stock's back,
/// 8 to 14 its shown card (the foundation piles: see `law_foundation_cells`); the gaps
/// between them and the columns right of the piles show nothing.
pub proof fn law_top_row_cells(cols: Seq<Seq<Card>>, x: int, y: int)
    requires
        0 <= y < 5,
        x >= 0,
    ensures
        0 <= x < 7 ==> target_at(cols, x, y) == Some(
            CardTarget { location: CardLocation::Stock, col_idx: 0, card_idx: 0 },
        ),
        8 <= x < 15 ==> target_at(cols, x, y) == Some(
            CardTarget { location: CardLocation::Stock, col_idx: 1, card_idx: 0 },
        ),
        (x == 7 || 15 <= x < 24 || x >= 56) ==> target_at(cols, x, y) is None,
{
}

/// The cells of the top five rows from screen column `24 + 8 * f` to `30 + 8 * f` show
/// foundation pile `f`.
pub proof fn law_foundation_cells(cols: Seq<Seq<Card>>, f: int, x: int, y: int)
    requires
        0 <= y < 5,
        0 <= f < 4,
        24 + 8 * f <= x < 31 + 8 * f,
    ensures
        target_at(cols, x, y) == Some(CardTarget { location: CardLocation::Foundation, col_idx: f as usize, card_idx: 0 }),
{
    lemma_band(x - 24, f);
}

/// One card to draw on the screen, at column `x` and row `y`, highlighted when `active`.
#[derive(Debug, Clone, Copy, PartialEq, Eq, Structural)]
pub enum Sprite {
    /// A card: its face when it is face up, its back otherwise.
    Card { card: Card, x: u16, y: u16, active: bool },
    /// The outline of an empty place, with the suit of `card` shown when `show_suit`.
    Placeholder { card: Card, x: u16, y: u16, active: bool, show_suit: bool },
}

/// Whether card `k` of tableau column `c` is highlighted: the pointer is on a face-up card of
/// that column at or below it.
pub open spec fn card_active(cards: Seq<Card>, c: int, k: int, hovered: Option<CardTarget>) -> bool {
    hovered matches Some(t) && t.location == CardLocation::Tableau && t.col_idx == c && t.card_idx <= k
        && cards[t.card_idx as int].face_up
}

/// The sprites of tableau column `c` drawn at column `x` from row `row`: its cards, each two
/// rows below the one before; an empty column shows an outline only under the pointer.
pub open spec fn column_sprites(cards: Seq<Card>, c: int, x: u16, row: u16, hovered: Option<CardTarget>) -> Seq<Sprite> {
    if cards.len() == 0 {
        if hovered matches Some(t) && t.location == CardLocation::Tableau && t.col_idx == c {
            seq![
                Sprite::Placeholder {
                    card: Card { value: Value::Ace, suit: Suit::at(c), face_up: false },
                    x,
                    y: row,
                    active: true,
                    show_suit: false,
                },
            ]
        } else {
            Seq::empty()
        }
    } else {
        Seq::new(
            cards.len(),
            |k: int| Sprite::Card { card: cards[k], x, y: (row + 2 * k) as u16, active: card_active(cards, c, k, hovered) },
        )
    }
}

/// The sprites of the first `n` tableau columns, column `c` at column `col + 8 * c`.
pub open spec fn tableau_sprites(cols: Seq<Seq<Card>>, n: nat, col: u16, row: u16, hovered: Option<CardTarget>) -> Seq<Sprite>
    decreases n,
{
    if n == 0 {
        Seq::empty()
    } else {
        tableau_sprites(cols, (n - 1) as nat, col, row, hovered) + column_sprites(
            cols[n - 1],
            n - 1,
            (8 * (n - 1) + col) as u16,
            row,
            hovered,
        )
    }
}

/// Whether the pointer is on `location`, column `c`.
pub open spec fn hovers(hovered: Option<CardTarget>, location: CardLocation, c: int) -> bool {
    hovered matches Some(t) && t.location == location && t.col_idx == c
}

/// The sprites of the foundation: pile `i` at column `col + 8 * i`, its top card or the outline
/// of an empty pile with its suit.
pub open spec fn foundation_sprites(piles: Seq<(Seq<Card>, bool)>, col: u16, row: u16, hovered: Option<CardTarget>) -> Seq<Sprite> {
    Seq::new(
        4,
        |i: int|
            if piles[i].0.len() > 0 {
                Sprite::Card {
                    card: piles[i].0.last(),
                    x: (8 * i + col) as u16,
                    y: row,
                    active: hovers(hovered, CardLocation::Foundation, i),
                }
            } else {
                Sprite::Placeholder {
                    card: Card { value: Value::Ace, suit: Suit::at(i), face_up: false },
                    x: (8 * i + col) as u16,
                    y: row,
                    active: hovers(hovered, CardLocation::Foundation, i),
                    show_suit: true,
                }
            },
    )
}

/// The sprites of the stock: a card back, and beside it the shown card, if any.
pub open spec fn stock_sprites(stock: Seq<Card>, visible: Option<usize>, col: u16, row: u16, hovered: Option<CardTarget>) -> Seq<Sprite> {
    seq![
        Sprite::Card {
            card: Card { value: Value::Ace, suit: Suit::Hearts, face_up: false },
            x: col,
            y: row,
            active: hovers(hovered, CardLocation::Stock, 0),
        },
    ] + if visible matches Some(i) && i < stock.len() {
        seq![
            Sprite::Card {
                card: stock[visible.unwrap() as int],
                x: (col + 8) as u16,
                y: row,
                active: hovers(hovered, CardLocation::Stock, 1),
            },
        ]
    } else {
        Seq::empty()
    }
}

/// The sprites of the held cards, highlighted, from the pointer down two rows apart.
pub open spec fn hand_sprites(hand: Seq<Card>, mouse_col: u16, mouse_row: u16) -> Seq<Sprite> {
    Seq::new(hand.len(), |k: int| Sprite::Card { card: hand[k], x: mouse_col, y: (mouse_row + 2 * k) as u16, active: true })
}

impl Tableau {
    /// The sprites of the tableau drawn from column `col`, row `row` (see `tableau_sprites`).
    pub fn layout(&self, col: u16, row: u16, hovered: Option<CardTarget>) -> (r: Vec<Sprite>)
        requires
            col + 48 <= u16::MAX,
            forall|c: int| 0 <= c < 7 ==> row + 2 * #[trigger] self@[c].len() <= u16::MAX,
        ensures
            r@ == tableau_sprites(self@, 7, col, row, hovered),
    {
        let mut out: Vec<Sprite> = Vec::new();
        let mut col_idx: usize = 0;
        while col_idx < 7
            invariant
                col_idx <= 7,
                col + 48 <= u16::MAX,
                forall|c: int| 0 <= c < 7 ==> row + 2 * #[trigger] self@[c].len() <= u16::MAX,
                out@ == tableau_sprites(self@, col_idx as nat, col, row, hovered),
            decreases 7 - col_idx,
        {
            let cu: u16 = col_idx as u16;
            let x: u16 = cu * 8 + col;
            let cards = &self.cols[col_idx];
            assert(cards@ == self@[col_idx as int]);
            let ghost before = out@;
            if cards.len() == 0 {
                if let Some(t) = hovered {
                    if t.location == CardLocation::Tableau && t.col_idx == col_idx {
                        let card = Card::new(Value::Ace, Suit::from(col_idx), false);
                        out.push(Sprite::Placeholder { card, x, y: row, active: true, show_suit: false });
                    }
                }
            } else {
                let mut y: u16 = row;
                let mut is_active = false;
                let mut card_idx: usize = 0;
                while card_idx < cards.len()
                    invariant
                        card_idx <= cards@.len(),
                        cards@.len() > 0,
                        row + 2 * cards@.len() <= u16::MAX,
                        y == row + 2 * card_idx,
                        is_active == (card_idx > 0 && card_active(cards@, col_idx as int, card_idx - 1, hovered)),
                        out@ == before + column_sprites(cards@, col_idx as int, x, row, hovered).take(card_idx as int),
                    decreases cards@.len() - card_idx,
                {
                    let card = cards[card_idx];
                    match hovered {
                        Some(t) => {
                            if !is_active && t.location == CardLocation::Tableau && t.col_idx == col_idx
                                && t.card_idx == card_idx && card.face_up {
                                is_active = true;
                            }
                        },
                        None => {
                            is_active = false;
                        },
                    }
                    out.push(Sprite::Card { card, x, y, active: is_active });
                    y += 2;
                    card_idx += 1;
                    assert(column_sprites(cards@, col_idx as int, x, row, hovered).take(card_idx as int)
                        =~= column_sprites(cards@, col_idx as int, x, row, hovered).take(card_idx - 1).push(
                        Sprite::Card { card, x, y: (y - 2) as u16, active: is_active },
                    ));
                }
                assert(column_sprites(cards@, col_idx as int, x, row, hovered).take(cards@.len() as int)
                    =~= column_sprites(cards@, col_idx as int, x, row, hovered));
            }
            col_idx += 1;
            assert(out@ =~= tableau_sprites(self@, col_idx as nat, col, row, hovered));
        }
        out
    }
}

impl Foundation {
    /// The sprites of the foundation drawn from column `col`, row `row` (see
    /// `foundation_sprites`).
    pub fn layout(&self, col: u16, row: u16, hovered: Option<CardTarget>) -> (r: Vec<Sprite>)
        requires
            col + 24 <= u16::MAX,
        ensures
            r@ == foundation_sprites(self@, col, row, hovered),
    {
        let mut out: Vec<Sprite> = Vec::new();
        let mut col_idx: usize = 0;
        while col_idx < 4
            invariant
                col_idx <= 4,
                col + 24 <= u16::MAX,
                out@ == foundation_sprites(self@, col, row, hovered).take(col_idx as int),
            decreases 4 - col_idx,
        {
            let cu: u16 = col_idx as u16;
            let x: u16 = cu * 8 + col;
            let is_active = match hovered {
                Some(target) => target.location == CardLocation::Foundation && target.col_idx == col_idx,
                None => false,
            };
            let pile = &self.piles[col_idx].0;
            let n = pile.len();
            if n > 0 {
                out.push(Sprite::Card { card: pile[n - 1], x, y: row, active: is_active });
            } else {
                let card = Card::new(Value::Ace, Suit::from(col_idx), false);
                out.push(Sprite::Placeholder { card, x, y: row, active: is_active, show_suit: true });
            }
            col_idx += 1;
            assert(out@ =~= foundation_sprites(self@, col, row, hovered).take(col_idx as int));
        }
        assert(foundation_sprites(self@, col, row, hovered).take(4) =~= foundation_sprites(self@, col, row, hovered));
        out
    }
}

impl Stock {
    /// The sprites of the stock drawn at column `col`, row `row` (see `stock_sprites`).
    pub fn layout(&self, col: u16, row: u16, hovered: Option<CardTarget>) -> (r: Vec<Sprite>)
        requires
            col + 8 <= u16::MAX,
        ensures
            r@ == stock_sprites(self.cards@, self.visible_idx, col, row, hovered),
    {
        let mut out: Vec<Sprite> = Vec::new();
        let back = Card::new(Value::Ace, Suit::Hearts, false);
        let is_active = match hovered {
            Some(target) => target.location == CardLocation::Stock && target.col_idx == 0,
            None => false,
        };
        out.push(Sprite::Card { card: back, x: col, y: row, active: is_active });
        let is_active = match hovered {
            Some(target) => target.location == CardLocation::Stock && target.col_idx == 1,
            None => false,
        };
        if let Some(visible_card) = self.peek_visible() {
            out.push(Sprite::Card { card: *visible_card, x: col + 8, y: row, active: is_active });
        }
        assert(out@ =~= stock_sprites(self.cards@, self.visible_idx, col, row, hovered));
        out
    }
}

/// The sprites of a whole game: the tableau from row `row + 5`, the foundation from column
/// `col + 24`, the stock at `col`, `row`, and last the held cards at the pointer.
pub open spec fn game_sprites(
    v: crate::logic::GameView,
    col: u16,
    row: u16,
    hovered: Option<CardTarget>,
    mouse: (u16, u16),
) -> Seq<Sprite> {
    tableau_sprites(v.cols, 7, col, (row + 5) as u16, hovered) + foundation_sprites(
        v.piles,
        (col + 24) as u16,
        row,
        hovered,
    ) + stock_sprites(v.stock, v.visible, col, row, hovered) + hand_sprites(v.hand, mouse.0, mouse.1)
}

/// The foundation is drawn as four cards in a row from screen column `col`, pile `i` at
/// column `col + 8 * i`, highlighted when the pointer is on it: a non-empty pile shows its top
/// (last) card, an empty pile the outline of an Ace of its suit, with the suit shown.
pub proof fn law_foundation_drawn(
    piles: Seq<(Seq<Card>, bool)>,
    col: u16,
    row: u16,
    hovered: Option<CardTarget>,
    i: int,
)
    requires
        0 <= i < 4,
        col + 24 <= u16::MAX,
    ensures
        foundation_sprites(piles, col, row, hovered).len() == 4,
        piles[i].0.len() > 0 ==> (foundation_sprites(piles, col, row, hovered)[i] matches Sprite::Card {
            card,
            x,
            y,
            active,
        } && card == piles[i].0[piles[i].0.len() - 1] && x == col + 8 * i && y == row && active == (hovered matches Some(t)
            && t.location == CardLocation::Foundation && t.col_idx == i)),
        piles[i].0.len() == 0 ==> (foundation_sprites(piles, col, row, hovered)[i] matches Sprite::Placeholder {
            card,
            x,
            y,
            active,
            show_suit,
        } && card.value == Value::Ace && card.suit == Suit::at(i) && !card.face_up && x == col + 8 * i && y == row
            && show_suit && active == (hovered matches Some(t) && t.location == CardLocation::Foundation && t.col_idx
            == i)),
{
}

/// The held cards are drawn last, highlighted, from the pointer down: held card `k` is the
/// sprite `k` places from the start of the last `hand.len()` sprites, at the pointer's column
/// and `2 * k` rows below the pointer.
pub proof fn law_held_cards_drawn(
    v: crate::logic::GameView,
    col: u16,
    row: u16,
    hovered: Option<CardTarget>,
    mouse: (u16, u16),
    k: int,
)
    requires
        0 <= k < v.hand.len(),
        mouse.1 + 2 * v.hand.len() <= u16::MAX,
    ensures
        ({
            let s = game_sprites(v, col, row, hovered, mouse);
            &&& s.len() >= v.hand.len()
            &&& s[s.len() - v.hand.len() + k] matches Sprite::Card { card, x, y, active } && card == v.hand[k] && x
                == mouse.0 && y == mouse.1 + 2 * k && active
        }),
{
    let a = tableau_sprites(v.cols, 7, col, (row + 5) as u16, hovered) + foundation_sprites(
        v.piles,
        (col + 24) as u16,
        row,
        hovered,
    ) + stock_sprites(v.stock, v.visible, col, row, hovered);
    let h = hand_sprites(v.hand, mouse.0, mouse.1);
    let s = game_sprites(v, col, row, hovered, mouse);
    assert(s == a + h);
    assert(s[a.len() + k] == h[k]);
}

impl Klondike {
    /// The sprites of the whole game (see `game_sprites`), in the order they are drawn.
    pub fn layout(&self, col: u16, row: u16, hovered: Option<CardTarget>, mouse: (u16, u16)) -> (r: Vec<Sprite>)
        requires
            col + 48 <= u16::MAX,
            forall|c: int| 0 <= c < 7 ==> row + 5 + 2 * #[trigger] self@.cols[c].len() <= u16::MAX,
            mouse.1 + 2 * self@.hand.len() <= u16::MAX,
        ensures
            r@ == game_sprites(self@, col, row, hovered, mouse),
    {
        assert(row + 5 + 2 * self@.cols[0].len() <= u16::MAX);
        assert forall|c: int| 0 <= c < 7 implies (row + 5) + 2 * #[trigger] self.tableau@[c].len() <= u16::MAX by {
            assert(self.tableau@[c] == self@.cols[c]);
        }
        let mut out = self.tableau.layout(col, row + 5, hovered);
        let mut f = self.foundation.layout(col + 24, row, hovered);
        out.append(&mut f);
        let mut s = self.stock.layout(col, row, hovered);
        out.append(&mut s);
        let mut y: u16 = mouse.1;
        let mut k: usize = 0;
        let ghost before = out@;
        while k < self.cards_in_play.0.len()
            invariant
                k <= self@.hand.len(),
                mouse.1 + 2 * self@.hand.len() <= u16::MAX,
                y == mouse.1 + 2 * k,
                out@ == before + hand_sprites(self@.hand, mouse.0, mouse.1).take(k as int),
            decreases self@.hand.len() - k,
        {
            out.push(Sprite::Card { card: self.cards_in_play.0[k], x: mouse.0, y, active: true });
            y += 2;
            k += 1;
            assert(out@ =~= before + hand_sprites(self@.hand, mouse.0, mouse.1).take(k as int));
        }
        assert(hand_sprites(self@.hand, mouse.0, mouse.1).take(k as int) =~= hand_sprites(self@.hand, mouse.0, mouse.1));
        out
    }
}

/// What the terminal does after an event has been handled.
#[derive(Debug, Clone, Copy, PartialEq, Eq, Structural)]
pub enum Reaction {
    /// End the game.
    Quit,
    /// Highlight the place under the pointer, if any.
    Hover(Option<CardTarget>),
    /// Draw the game again.
    Redraw,
}

/// Handles one event of the player: `q` quits; a mouse move points at the place under the
/// pointer; a click acts on the place clicked (see `GameView::after_action`); other events
/// change nothing. A well-formed game meets the requirement on clicks (see
/// `law_screen_targets_exist` and `lemma_wf_can_act`).
pub fn handle_event(game: &mut Klondike, event: GameEvent) -> (r: Result<Reaction, GameError>)
    requires
        event matches GameEvent::MouseDown { col, row } ==> pointer_column_fits(old(game)@.cols, col as int),
        event matches GameEvent::MouseMove { col, row } ==> pointer_column_fits(old(game)@.cols, col as int),
        event matches GameEvent::MouseDown { col, row } ==> (target_at(old(game)@.cols, col as int, row as int) matches Some(
            t,
        ) ==> old(game)@.can_act(t)),
    ensures
        old(game)@.wf() ==> final(game)@.wf(),
        final(game).statistics == old(game).statistics,
        match event {
            GameEvent::Quit => r == Ok::<Reaction, GameError>(Reaction::Quit) && final(game)@ == old(game)@,
            GameEvent::MouseMove { col, row } => r == Ok::<Reaction, GameError>(
                Reaction::Hover(target_at(old(game)@.cols, col as int, row as int)),
            ) && final(game)@ == old(game)@,
            GameEvent::MouseDown { col, row } => r == Ok::<Reaction, GameError>(Reaction::Redraw) && final(game)@
                == match target_at(old(game)@.cols, col as int, row as int) {
                Some(t) => old(game)@.after_action(t),
                None => old(game)@,
            },
            _ => r == Ok::<Reaction, GameError>(Reaction::Redraw) && final(game)@ == old(game)@,
        },
{
    match event {
        GameEvent::Quit => Ok(Reaction::Quit),
        GameEvent::MouseMove { col, row } => Ok(Reaction::Hover(game.get_card_at(col, row))),
        GameEvent::MouseDown { col, row } => {
            if let Some(target) = game.get_card_at(col, row) {
                game.primary_action_at(target)?;
            }
            Ok(Reaction::Redraw)
        },
        _ => Ok(Reaction::Redraw),
    }
}

} // verus!
