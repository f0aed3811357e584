//! The piles of a Klondike game and the rules for moving cards between them.
use vstd::prelude::*;

use rand::seq::SliceRandom;

use crate::card::{Card, Suit, Value};
use crate::renderer::{CardLocation, CardTarget};

verus! {

#[verifier::external_type_specification]
#[verifier::external_body]
pub struct ExInstant(std::time::Instant);

#[verifier::external_type_specification]
#[verifier::external_body]
pub struct ExThreadRng(rand::rngs::ThreadRng);

/// Calls `std::time::Instant::now`: the current time, of which nothing is stated.
#[verifier::external_body]
fn instant_now() -> std::time::Instant {
    std::time::Instant::now()
}

/// Calls `rand::rng`: a handle on the thread-local random generator, of which nothing is
/// stated. (The source panics if the operating system gives no entropy to seed it.)
#[verifier::external_body]
fn thread_rng() -> rand::rngs::ThreadRng {
    rand::rng()
}

/// Calls `rand::seq::SliceRandom::shuffle` on the cards. The source permutes the slice by
/// swaps, so the cards after the call are those before it, each as often: that is stated.
/// Their order rests on chance and is not stated.
#[verifier::external_body]
fn shuffle_cards(cards: &mut Vec<Card>, rng: &mut rand::rngs::ThreadRng)
    ensures
        final(cards)@.len() == old(cards)@.len(),
        final(cards)@.to_multiset() == old(cards)@.to_multiset(),
{
    cards.shuffle(rng);
}

/// Why a move was refused.
#[derive(Debug)]
pub enum GameError {
    PileFull,
    InvalidMove(&'static str),
    WrongSuit,
    Unknown,
}

/// When the game started and how many moves were made.
#[derive(Debug, Clone, Copy, PartialEq, Eq)]
pub struct GameStatistics {
    pub game_start: std::time::Instant,
    pub moves: usize,
}

/// The seven columns of the table.
pub struct Tableau {
    pub cols: [Vec<Card>; 7],
}

/// The four foundation piles, one per suit, each with a flag set when a King was placed on it.
pub struct Foundation {
    pub piles: [(Vec<Card>, bool); 4],
}

/// The stock, and the index of the card of it that is shown, if any.
pub struct Stock {
    pub cards: Vec<Card>,
    pub visible_idx: Option<usize>,
}

/// A game of Klondike: the piles, the cards the player holds with the place they came from,
/// and the statistics of the game.
pub struct Klondike {
    pub tableau: Tableau,
    pub foundation: Foundation,
    pub stock: Stock,
    pub cards_in_play: (Vec<Card>, CardTarget),
    pub statistics: GameStatistics,
}

/// The state of a game as the rules see it.
#[verifier::ext_equal]
pub struct GameView {
    /// The seven tableau columns, each from bottom to top.
    pub cols: Seq<Seq<Card>>,
    /// The four foundation piles, each with its flag.
    pub piles: Seq<(Seq<Card>, bool)>,
    /// The stock, bottom to top.
    pub stock: Seq<Card>,
    /// The index of the shown stock card.
    pub visible: Option<usize>,
    /// The cards the player holds.
    pub hand: Seq<Card>,
    /// Where the held cards came from.
    pub origin: CardTarget,
}

/// The sequence with its last card turned face up (unchanged when empty).
pub open spec fn turn_up_last(s: Seq<Card>) -> Seq<Card> {
    if s.len() > 0 {
        s.update(s.len() - 1, s.last().turned_up())
    } else {
        s
    }
}

/// The sequence with the card at `i` turned face up, when `i` is an index of it.
pub open spec fn turn_up_at(s: Seq<Card>, i: int) -> Seq<Card> {
    if 0 <= i < s.len() {
        s.update(i, s[i].turned_up())
    } else {
        s
    }
}

/// Dealing `n` columns from the top (the end) of `cards`: column `i` takes `i + 1` cards, or
/// what is left, with its last card turned face up. Gives the columns and the rest.
pub open spec fn deal(cards: Seq<Card>, n: nat) -> (Seq<Seq<Card>>, Seq<Card>)
    decreases n,
{
    if n == 0 {
        (Seq::empty(), cards)
    } else {
        let (cols, rest) = deal(cards, (n - 1) as nat);
        let k = if (n as int) < rest.len() { n as int } else { rest.len() as int };
        (
            cols.push(turn_up_last(rest.subrange(rest.len() - k, rest.len() as int))),
            rest.subrange(0, rest.len() - k),
        )
    }
}

/// The outcome of placing `cards` on a tableau column `col`: the new column, or the error.
/// A non-empty column takes a run whose first card has the other colour and is one lower than
/// its last card; an empty column takes a run that starts with a King.
pub open spec fn placed_on_column(col: Seq<Card>, cards: Seq<Card>) -> Result<Seq<Card>, GameError> {
    if cards.len() == 0 {
        Err(GameError::InvalidMove("No cards to place"))
    } else if col.len() > 0 {
        if cards[0].suit.red() == col.last().suit.red() {
            Err(GameError::InvalidMove("Invalid suit for the target column"))
        } else if cards[0].value.num() != col.last().value.num() - 1 {
            Err(GameError::InvalidMove("Invalid value for the target column"))
        } else {
            Ok(col + cards)
        }
    } else if cards[0].value == Value::King {
        Ok(cards)
    } else {
        Err(GameError::InvalidMove("Only Kings can be placed on empty tableau columns"))
    }
}

/// The outcome of placing `card` on the foundation pile `pile` of suit `suit`: the new pile,
/// or the error. A pile takes cards of its suit, from the Ace up, one value at a time.
pub open spec fn placed_on_pile(pile: Seq<Card>, card: Card, suit: Suit) -> Result<Seq<Card>, GameError> {
    if card.suit != suit {
        Err(GameError::WrongSuit)
    } else if pile.len() == 0 && card.value != Value::Ace {
        Err(GameError::InvalidMove("Only Aces can be placed on an empty foundation pile"))
    } else if pile.len() > 0 && card.value.num() != pile.last().value.num() + 1 {
        Err(GameError::InvalidMove("Invalid card placement"))
    } else {
        Ok(pile.push(card))
    }
}

/// Which card of a stock of `len` cards is shown after the player turns one: the one below the
/// shown card, none after the bottom card, the top card when none was shown; none when empty.
pub open spec fn next_visible(len: nat, idx: Option<usize>) -> Option<usize> {
    if len == 0 {
        None
    } else {
        match idx {
            Some(i) => if i > 0 {
                Some((i - 1) as usize)
            } else {
                None
            },
            None => Some((len - 1) as usize),
        }
    }
}

/// A stock `cards` with shown card `idx` after the player turns one card: the next card is
/// shown (see `next_visible`) and turned face up.
pub open spec fn turn_stock(cards: Seq<Card>, idx: Option<usize>) -> (Seq<Card>, Option<usize>) {
    let vis = next_visible(cards.len(), idx);
    (
        match vis {
            Some(i) => turn_up_at(cards, i as int),
            None => cards,
        },
        vis,
    )
}

/// The cards of a fresh deck, in the order they are made: by value from the Ace, each value in
/// the four suits, all face down.
pub open spec fn fresh_deck() -> Seq<Card> {
    Seq::new(52, |i: int| Card { value: Value::with_num(i / 4 + 1), suit: Suit::at(i % 4), face_up: false })
}

impl GameView {
    /// The shape of the table, and the facts that every move relies on: the shown stock card
    /// is in the stock, and cards held from the stock can go back to where they were.
    pub open spec fn wf(self) -> bool {
        &&& self.cols.len() == 7
        &&& self.piles.len() == 4
        &&& self.visible matches Some(i) ==> i < self.stock.len()
        &&& (self.hand.len() > 0 && self.origin.location == CardLocation::Stock) ==> self.origin.card_idx
            <= self.stock.len()
    }

    /// Whether `cards` can be put back at `target` (see `restored`): into the stock, only a
    /// card, and at an index of the stock or just past its end.
    pub open spec fn can_restore(self, cards: Seq<Card>, target: CardTarget) -> bool {
        target.location == CardLocation::Stock ==> cards.len() > 0 && target.card_idx <= self.stock.len()
    }

    /// Whether a click on `target` can be carried out (see `after_action`): a held run goes
    /// onto an existing tableau column, a shown stock card to pick up is in the stock, and
    /// held cards that go back to their origin can.
    pub open spec fn can_act(self, target: CardTarget) -> bool {
        match target.location {
            CardLocation::Tableau => self.hand.len() > 0 ==> {
                &&& target.col_idx < 7
                &&& placed_on_column(self.cols[target.col_idx as int], self.hand) is Err ==> self.can_restore(
                    self.hand,
                    self.origin,
                )
            },
            CardLocation::Foundation => self.hand.len() == 1 ==> {
                let s = Suit::at(target.col_idx as int);
                placed_on_pile(self.piles[s.idx()].0, self.hand[0], s) is Err ==> self.can_restore(
                    seq![self.hand[0]],
                    self.origin,
                )
            },
            CardLocation::Stock => if self.hand.len() == 0 {
                target.col_idx == 1 ==> (self.visible matches Some(i) ==> i < self.stock.len())
            } else {
                self.can_restore(self.hand, self.origin)
            },
        }
    }

    /// The held cards gone.
    pub open spec fn empty_hand(self) -> GameView {
        GameView { hand: Seq::empty(), ..self }
    }

    /// The card just below the place the held cards came from turned face up: the card at
    /// index `origin.card_idx - 1` of the tableau column `origin.col_idx`, when there is one.
    pub open spec fn flip_below_origin(self) -> GameView {
        let o = self.origin;
        if o.col_idx < 7 && o.card_idx >= 1 {
            GameView {
                cols: self.cols.update(o.col_idx as int, turn_up_at(self.cols[o.col_idx as int], o.card_idx - 1)),
                ..self
            }
        } else {
            self
        }
    }

    /// `cards` put back at `target`: on top of a tableau column or a foundation pile (when the
    /// index names one), or the first of them into the stock at `target.card_idx`, shown.
    pub open spec fn restored(self, cards: Seq<Card>, target: CardTarget) -> GameView {
        match target.location {
            CardLocation::Tableau => if target.col_idx < 7 {
                GameView {
                    cols: self.cols.update(target.col_idx as int, self.cols[target.col_idx as int] + cards),
                    ..self
                }
            } else {
                self
            },
            CardLocation::Foundation => if target.col_idx < 4 {
                let (pile, complete) = self.piles[target.col_idx as int];
                GameView { piles: self.piles.update(target.col_idx as int, (pile + cards, complete)), ..self }
            } else {
                self
            },
            CardLocation::Stock => GameView {
                stock: self.stock.insert(target.card_idx as int, cards[0]),
                visible: Some(target.card_idx),
                ..self
            },
        }
    }

    /// The player picks up, from the tableau, the face-up card at `target` and those above it;
    /// the hand is empty when there is no such card. The target is remembered as the origin.
    pub open spec fn picked_up(self, target: CardTarget) -> GameView {
        let col = self.cols[target.col_idx as int];
        let k = target.card_idx as int;
        if target.col_idx < 7 && k < col.len() && col[k].face_up {
            GameView {
                cols: self.cols.update(target.col_idx as int, col.subrange(0, k)),
                hand: col.subrange(k, col.len() as int),
                origin: target,
                ..self
            }
        } else {
            GameView { hand: Seq::empty(), origin: target, ..self }
        }
    }

    /// The player puts the held cards on tableau column `target.col_idx`: when the rules allow
    /// it the card below the origin is turned up, otherwise the cards go back to the origin.
    pub open spec fn placed_hand(self, target: CardTarget) -> GameView {
        match placed_on_column(self.cols[target.col_idx as int], self.hand) {
            Ok(col) => GameView {
                cols: self.cols.update(target.col_idx as int, col),
                ..self
            }.flip_below_origin().empty_hand(),
            Err(_) => self.restored(self.hand, self.origin).empty_hand(),
        }
    }

    /// The player clicks a foundation pile: with empty hands the top card of the pile of suit
    /// `Suit::at(target.col_idx)` is picked up; holding one card, it is put on that pile, or
    /// back at its origin when the rules refuse it; holding more, nothing happens.
    pub open spec fn foundation_clicked(self, target: CardTarget) -> GameView {
        let s = Suit::at(target.col_idx as int);
        let (pile, complete) = self.piles[s.idx()];
        if self.hand.len() == 0 {
            if pile.len() > 0 {
                GameView {
                    piles: self.piles.update(s.idx(), (pile.drop_last(), complete)),
                    hand: seq![pile.last()],
                    origin: target,
                    ..self
                }
            } else {
                self
            }
        } else if self.hand.len() == 1 {
            let card = self.hand[0];
            match placed_on_pile(pile, card, s) {
                Ok(p) => GameView {
                    piles: self.piles.update(s.idx(), (p, card.value == Value::King)),
                    ..self.empty_hand()
                }.flip_below_origin(),
                Err(_) => self.empty_hand().restored(seq![card], self.origin),
            }
        } else {
            self
        }
    }

    /// The player clicks the stock: with empty hands, column 0 shows the next stock card (turned
    /// up) and column 1 picks up the shown card; holding cards, they go back to their origin.
    pub open spec fn stock_clicked(self, target: CardTarget) -> GameView {
        if self.hand.len() == 0 {
            if target.col_idx == 0 {
                let vis = next_visible(self.stock.len(), self.visible);
                GameView {
                    stock: match vis {
                        Some(i) => turn_up_at(self.stock, i as int),
                        None => self.stock,
                    },
                    visible: vis,
                    ..self
                }
            } else if target.col_idx == 1 {
                match self.visible {
                    Some(i) => GameView {
                        stock: self.stock.remove(i as int),
                        visible: None,
                        hand: seq![self.stock[i as int]],
                        origin: CardTarget { location: CardLocation::Stock, col_idx: 1, card_idx: i },
                        ..self
                    },
                    None => self,
                }
            } else {
                self
            }
        } else {
            self.restored(self.hand, self.origin).empty_hand()
        }
    }

    /// Whether the game is over: the tableau and the stock are empty, and no pile is flagged
    /// complete while it holds other than thirteen cards.
    pub open spec fn game_over(self) -> bool {
        &&& forall|i: int| 0 <= i < 4 ==> !(#[trigger] self.piles[i].0.len() != 13 && self.piles[i].1)
        &&& forall|i: int| 0 <= i < 7 ==> #[trigger] self.cols[i].len() == 0
        &&& self.stock.len() == 0
    }

    /// The game after the player clicks `target`.
    pub open spec fn after_action(self, target: CardTarget) -> GameView {
        match target.location {
            CardLocation::Tableau => if self.hand.len() == 0 {
                self.picked_up(target)
            } else {
                self.placed_hand(target)
            },
            CardLocation::Foundation => self.foundation_clicked(target),
            CardLocation::Stock => self.stock_clicked(target),
        }
    }
}

impl View for Klondike {
    type V = GameView;

    open spec fn view(&self) -> GameView {
        GameView {
            cols: self.tableau@,
            piles: self.foundation@,
            stock: self.stock.cards@,
            visible: self.stock.visible_idx,
            hand: self.cards_in_play.0@,
            origin: self.cards_in_play.1,
        }
    }
}

impl View for Tableau {
    type V = Seq<Seq<Card>>;

    open spec fn view(&self) -> Seq<Seq<Card>> {
        Seq::new(7, |i: int| self.cols@[i]@)
    }
}

impl View for Foundation {
    type V = Seq<(Seq<Card>, bool)>;

    open spec fn view(&self) -> Seq<(Seq<Card>, bool)> {
        Seq::new(4, |i: int| (self.piles@[i].0@, self.piles@[i].1))
    }
}

/// Appends the cards of `src` to `dst`, in order.
fn append_cards(dst: &mut Vec<Card>, src: &Vec<Card>)
    ensures
        final(dst)@ == old(dst)@ + src@,
{
    let mut i: usize = 0;
    while i < src.len()
        invariant
            i <= src.len(),
            dst@ == old(dst)@ + src@.take(i as int),
        decreases src.len() - i,
    {
        dst.push(src[i]);
        i += 1;
        assert(src@.take(i as int) == src@.take(i - 1) + seq![src@[i - 1]]);
    }
    assert(src@.take(src.len() as int) == src@);
}

/// Turns the last card of `cards` face up.
fn turn_up_last_card(cards: &mut Vec<Card>)
    ensures
        final(cards)@ == turn_up_last(old(cards)@),
{
    let n = cards.len();
    if n > 0 {
        let mut c = cards[n - 1];
        c.face_up = true;
        cards.set(n - 1, c);
    }
}

impl GameStatistics {
    /// Statistics of a game that starts now, with no move made.
    pub fn new() -> (s: Self)
        ensures
            s.moves == 0,
    {
        Self { game_start: instant_now(), moves: 0 }
    }
}

impl Tableau {
    /// Deals the seven columns from the top of the stock (see `deal`).
    pub fn new(stock: &mut Stock) -> (t: Self)
        ensures
            (t@, final(stock).cards@) == deal(old(stock).cards@, 7),
            final(stock).visible_idx == old(stock).visible_idx,
    {
        let mut cols: [Vec<Card>; 7] = [Vec::new(), Vec::new(), Vec::new(), Vec::new(), Vec::new(), Vec::new(), Vec::new()];
        let ghost start = stock.cards@;
        let mut i: usize = 0;
        while i < 7
            invariant
                i <= 7,
                deal(start, i as nat).0.len() == i,
                forall|j: int| 0 <= j < i ==> cols@[j]@ == deal(start, i as nat).0[j],
                stock.cards@ == deal(start, i as nat).1,
                stock.visible_idx == old(stock).visible_idx,
            decreases 7 - i,
        {
            let mut taken = stock.take_n(i + 1);
            turn_up_last_card(&mut taken);
            cols[i] = taken;
            i += 1;
        }
        let t = Self { cols };
        assert(t@ =~= deal(start, 7).0);
        t
    }

    /// Takes the cards from `target.card_idx` to the end of column `target.col_idx`, if that
    /// card exists and is face up; otherwise nothing changes and the result is `None`.
    pub fn get_valid_cards_from(&mut self, target: crate::renderer::CardTarget) -> (r: Option<Vec<Card>>)
        ensures
            ({
                let col = old(self)@[target.col_idx as int];
                if target.col_idx < 7 && target.card_idx < col.len() && col[target.card_idx as int].face_up {
                    &&& r matches Some(v) && v@ == col.subrange(target.card_idx as int, col.len() as int)
                    &&& final(self)@ == old(self)@.update(target.col_idx as int, col.subrange(0, target.card_idx as int))
                } else {
                    &&& r is None
                    &&& final(self)@ == old(self)@
                }
            }),
    {
        if target.col_idx >= 7 {
            return None;
        }
        let i = target.col_idx;
        if target.card_idx >= self.cols[i].len() {
            return None;
        }
        if !self.cols[i][target.card_idx].face_up {
            return None;
        }
        let moving_cards = self.cols[i].split_off(target.card_idx);
        assert(self@ =~= old(self)@.update(i as int, old(self)@[i as int].subrange(0, target.card_idx as int)));
        Some(moving_cards)
    }

    /// Places `cards` on column `col_idx` when the rules allow it (see `placed_on_column`).
    pub fn place_cards_in_col(&mut self, cards: &Vec<Card>, col_idx: usize) -> (r: Result<(), GameError>)
        requires
            cards.len() > 0 ==> col_idx < 7,
        ensures
            match placed_on_column(old(self)@[col_idx as int], cards@) {
                Ok(col) => r is Ok && final(self)@ == old(self)@.update(col_idx as int, col),
                Err(e) => r == Err::<(), GameError>(e) && final(self)@ == old(self)@,
            },
    {
        if cards.len() == 0 {
            return Err(GameError::InvalidMove("No cards to place"));
        }
        let n = self.cols[col_idx].len();
        if n > 0 {
            let last_col_card = self.cols[col_idx][n - 1];
            let first = cards[0];
            if first.suit.is_red() {
                if !last_col_card.suit.is_red() {
                } else {
                    return Err(GameError::InvalidMove("Invalid suit for the target column"));
                }
            } else {
                if last_col_card.suit.is_red() {
                } else {
                    return Err(GameError::InvalidMove("Invalid suit for the target column"));
                }
            }
            if first.value.rank() != last_col_card.value.rank() - 1 {
                return Err(GameError::InvalidMove("Invalid value for the target column"));
            }
            append_cards(&mut self.cols[col_idx], cards);
            assert(self@ =~= old(self)@.update(col_idx as int, old(self)@[col_idx as int] + cards@));
            return Ok(());
        }
        if cards[0].value == Value::King {
            append_cards(&mut self.cols[col_idx], cards);
            assert(self@ =~= old(self)@.update(col_idx as int, cards@));
            Ok(())
        } else {
            Err(GameError::InvalidMove("Only Kings can be placed on empty tableau columns"))
        }
    }
}

impl Foundation {
    /// Four empty piles, none complete.
    pub fn new() -> (f: Self)
        ensures
            f@ == Seq::new(4, |i: int| (Seq::<Card>::empty(), false)),
    {
        let f = Self {
            piles: [
                (Vec::with_capacity(13), false),
                (Vec::with_capacity(13), false),
                (Vec::with_capacity(13), false),
                (Vec::with_capacity(13), false),
            ],
        };
        assert(f@ =~= Seq::new(4, |i: int| (Seq::<Card>::empty(), false)));
        f
    }

    /// Places `card` on the pile of `selected_pile` when the rules allow it (see
    /// `placed_on_pile`); the pile's flag then tells whether the card is a King.
    pub fn place_card_on_pile(&mut self, card: Card, selected_pile: Suit) -> (r: Result<(), GameError>)
        ensures
            match placed_on_pile(old(self)@[selected_pile.idx()].0, card, selected_pile) {
                Ok(pile) => r is Ok && final(self)@ == old(self)@.update(
                    selected_pile.idx(),
                    (pile, card.value == Value::King),
                ),
                Err(e) => r == Err::<(), GameError>(e) && final(self)@ == old(self)@,
            },
    {
        if card.suit != selected_pile {
            return Err(GameError::WrongSuit);
        }
        let i = selected_pile.index();
        let n = self.piles[i].0.len();
        if n == 0 && card.value != Value::Ace {
            return Err(GameError::InvalidMove("Only Aces can be placed on an empty foundation pile"));
        }
        if n != 0 && card.value.rank() != self.piles[i].0[n - 1].value.rank() + 1 {
            return Err(GameError::InvalidMove("Invalid card placement"));
        }
        self.piles[i].0.push(card);
        self.piles[i].1 = card.value == Value::King;
        assert(self@ =~= old(self)@.update(i as int, (old(self)@[i as int].0.push(card), card.value == Value::King)));
        Ok(())
    }

    /// Takes the top card of the pile of `selected_pile`, if any; the pile's flag stays.
    pub fn take_card_from_pile(&mut self, selected_pile: Suit) -> (r: Option<Card>)
        ensures
            ({
                let (pile, complete) = old(self)@[selected_pile.idx()];
                if pile.len() > 0 {
                    &&& r == Some(pile.last())
                    &&& final(self)@ == old(self)@.update(selected_pile.idx(), (pile.drop_last(), complete))
                } else {
                    &&& r is None
                    &&& final(self)@ == old(self)@
                }
            }),
    {
        let i = selected_pile.index();
        let r = self.piles[i].0.pop();
        assert(self@ =~= old(self)@.update(i as int, (self.piles@[i as int].0@, old(self)@[i as int].1)));
        r
    }
}

impl Stock {
    /// Whether the shown card, if any, is a card of the stock.
    pub open spec fn visible_ok(&self) -> bool {
        self.visible_idx matches Some(i) ==> i < self.cards.len()
    }

    /// A shuffled fresh deck, all face down, with no card shown.
    pub fn new() -> (s: Self)
        ensures
            s.cards@.len() == 52,
            s.cards@.to_multiset() == fresh_deck().to_multiset(),
            forall|c: Card| #[trigger] s.cards@.to_multiset().count(c) == if c.face_up {
                0int
            } else {
                1int
            },
            s.visible_idx is None,
    {
        let mut cards: Vec<Card> = Vec::new();
        let mut i: usize = 0;
        while i < 52
            invariant
                i <= 52,
                cards@ == fresh_deck().take(i as int),
            decreases 52 - i,
        {
            let c = Card::new(Value::from_rank(i / 4 + 1), Suit::from(i % 4), false);
            cards.push(c);
            i += 1;
            assert(cards@ =~= fresh_deck().take(i as int));
        }
        assert(cards@ =~= fresh_deck());
        let mut rng = thread_rng();
        shuffle_cards(&mut cards, &mut rng);
        proof {
            crate::laws::law_fresh_deck_complete();
        }
        Stock { cards, visible_idx: None }
    }

    /// Shows the next card of the stock (see `next_visible`) and turns it face up.
    pub fn get_new_visible(&mut self)
        ensures
            final(self).visible_idx == next_visible(old(self).cards@.len(), old(self).visible_idx),
            final(self).cards@ == (match final(self).visible_idx {
                Some(i) => turn_up_at(old(self).cards@, i as int),
                None => old(self).cards@,
            }),
            (final(self).cards@, final(self).visible_idx) == turn_stock(old(self).cards@, old(self).visible_idx),
    {
        if self.cards.len() == 0 {
            self.visible_idx = None;
            return;
        }
        match self.visible_idx {
            Some(idx) => {
                if idx > 0 {
                    self.visible_idx = Some(idx - 1);
                } else {
                    self.visible_idx = None;
                }
            },
            None => {
                self.visible_idx = Some(self.cards.len() - 1);
            },
        }
        if let Some(visible_idx) = self.visible_idx {
            if visible_idx < self.cards.len() {
                let mut c = self.cards[visible_idx];
                c.face_up = true;
                self.cards.set(visible_idx, c);
            }
        }
    }

    /// The shown card, if one is shown and it is in the stock.
    pub fn peek_visible(&self) -> (r: Option<&Card>)
        ensures
            r is Some <==> (self.visible_idx matches Some(i) && i < self.cards.len()),
            r matches Some(c) ==> *c == self.cards@[self.visible_idx.unwrap() as int],
    {
        match self.visible_idx {
            Some(i) => if i < self.cards.len() {
                Some(&self.cards[i])
            } else {
                None
            },
            None => None,
        }
    }

    /// Takes the shown card out of the stock with its index; then no card is shown.
    pub fn take_visible(&mut self) -> (r: Option<(Card, usize)>)
        requires
            old(self).visible_ok(),
        ensures
            match old(self).visible_idx {
                Some(i) => {
                    &&& r == Some((old(self).cards@[i as int], i))
                    &&& final(self).cards@ == old(self).cards@.remove(i as int)
                    &&& final(self).visible_idx is None
                },
                None => r is None && final(self).cards@ == old(self).cards@ && final(self).visible_idx is None,
            },
    {
        match self.visible_idx {
            Some(i) => {
                let c = self.cards.remove(i);
                self.visible_idx = None;
                Some((c, i))
            },
            None => None,
        }
    }

    /// Takes the top `n` cards (the last ones), or all when there are fewer.
    pub fn take_n(&mut self, n: usize) -> (r: Vec<Card>)
        ensures
            ({
                let len = old(self).cards@.len() as int;
                let k = if (n as int) < len { n as int } else { len };
                &&& r@ == old(self).cards@.subrange(len - k, len)
                &&& final(self).cards@ == old(self).cards@.subrange(0, len - k)
            }),
            final(self).visible_idx == old(self).visible_idx,
    {
        let len = self.cards.len();
        let take_amt = if n < len { n } else { len };
        let split_idx = len - take_amt;
        self.cards.split_off(split_idx)
    }
}

/// The number of cards dealt into the first `n` columns of a full table: 1 + 2 + ... + n.
pub open spec fn dealt_count(n: nat) -> nat
    decreases n,
{
    if n == 0 {
        0
    } else {
        n + dealt_count((n - 1) as nat)
    }
}

/// When the deck holds enough cards, column `i` of a deal gets `i + 1` cards and the rest
/// keeps the cards below them.
pub proof fn lemma_deal_sizes(cards: Seq<Card>, n: nat)
    requires
        cards.len() >= dealt_count(n),
    ensures
        deal(cards, n).0.len() == n,
        forall|i: int| 0 <= i < n ==> #[trigger] deal(cards, n).0[i].len() == i + 1,
        deal(cards, n).1 == cards.subrange(0, cards.len() - dealt_count(n)),
    decreases n,
{
    if n > 0 {
        lemma_deal_sizes(cards, (n - 1) as nat);
    }
}

/// Dealing a deck that is all face down turns up exactly the last card of each column, and
/// leaves the rest of the deck face down.
pub proof fn lemma_deal_faces(cards: Seq<Card>, n: nat)
    requires
        forall|j: int| 0 <= j < cards.len() ==> !(#[trigger] cards[j]).face_up,
    ensures
        deal(cards, n).0.len() == n,
        forall|i: int, j: int|
            0 <= i < n && 0 <= j < deal(cards, n).0[i].len() ==> (#[trigger] deal(cards, n).0[i][j].face_up <==> j
                == deal(cards, n).0[i].len() - 1),
        forall|j: int| 0 <= j < deal(cards, n).1.len() ==> !(#[trigger] deal(cards, n).1[j]).face_up,
    decreases n,
{
    if n > 0 {
        lemma_deal_faces(cards, (n - 1) as nat);
        let (cols, rest) = deal(cards, (n - 1) as nat);
        let k = if (n as int) < rest.len() { n as int } else { rest.len() as int };
        let taken = rest.subrange(rest.len() - k, rest.len() as int);
        let col = turn_up_last(taken);
        assert forall|j: int| 0 <= j < col.len() implies (#[trigger] col[j].face_up <==> j == col.len() - 1) by {
            if j < col.len() - 1 {
                assert(col[j] == rest[rest.len() - k + j]);
            }
        }
        assert(deal(cards, n).0 == cols.push(col));
        assert forall|i: int, j: int|
            0 <= i < n && 0 <= j < deal(cards, n).0[i].len() implies (#[trigger] deal(cards, n).0[i][j].face_up <==> j
                == deal(cards, n).0[i].len() - 1) by {
            if i < n - 1 {
                assert(deal(cards, n).0[i] == cols[i]);
            } else {
                assert(deal(cards, n).0[i] == col);
            }
        }
    }
}

impl Klondike {
    /// A new game: a shuffled fresh deck dealt into the tableau (see `deal_from`).
    pub fn new() -> (k: Self)
        ensures
            exists|deck: Seq<Card>|
                #![trigger deal(deck, 7)]
                deck.to_multiset() == fresh_deck().to_multiset() && (k@.cols, k@.stock) == deal(deck, 7),
            forall|i: int| 0 <= i < 7 ==> #[trigger] k@.cols[i].len() == i + 1,
            k@.stock.len() == 24,
            k@.piles == Seq::new(4, |i: int| (Seq::<Card>::empty(), false)),
            k@.visible is None,
            k@.hand.len() == 0,
            k@.origin == (CardTarget { location: CardLocation::Tableau, col_idx: 0, card_idx: 0 }),
            forall|i: int, j: int|
                0 <= i < 7 && 0 <= j < k@.cols[i].len() ==> (#[trigger] k@.cols[i][j].face_up <==> j == k@.cols[i].len()
                    - 1),
            forall|j: int| 0 <= j < k@.stock.len() ==> !(#[trigger] k@.stock[j]).face_up,
            k@.wf(),
            k@.deck() == crate::laws::keys(fresh_deck()),
            k.statistics.moves == 0,
    {
        let stock = Stock::new();
        proof {
            assert(dealt_count(7) == 28) by {
                reveal_with_fuel(dealt_count, 8);
            }
            lemma_deal_sizes(stock.cards@, 7);
            assert forall|j: int| 0 <= j < stock.cards@.len() implies !(#[trigger] stock.cards@[j]).face_up by {
                vstd::seq_lib::to_multiset_contains(stock.cards@, stock.cards@[j]);
                assert(stock.cards@.contains(stock.cards@[j]));
            }
            lemma_deal_faces(stock.cards@, 7);
        }
        let k = Self::deal_from(stock.cards);
        proof {
            crate::laws::law_dealt_game_holds_deck(k@, stock.cards@);
            crate::laws::law_deal_keeps_cards(stock.cards@);
        }
        k
    }

    /// A game dealt from `cards`, top card last: the tableau is dealt (see `deal`), the rest
    /// is the stock with no card shown, the foundation is empty and the hands are empty.
    pub fn deal_from(cards: Vec<Card>) -> (k: Self)
        ensures
            (k@.cols, k@.stock) == deal(cards@, 7),
            k@.piles == Seq::new(4, |i: int| (Seq::<Card>::empty(), false)),
            k@.visible is None,
            k@.hand.len() == 0,
            k@.origin == (CardTarget { location: CardLocation::Tableau, col_idx: 0, card_idx: 0 }),
            k@.wf(),
            k.statistics.moves == 0,
    {
        let mut stock = Stock { cards, visible_idx: None };
        let tableau = Tableau::new(&mut stock);
        let foundation = Foundation::new();
        let statistics = GameStatistics::new();
        Self {
            tableau,
            foundation,
            stock,
            cards_in_play: (Vec::new(), CardTarget { location: CardLocation::Tableau, col_idx: 0, card_idx: 0 }),
            statistics,
        }
    }
}

/// In a well-formed game every click on a place that exists can be carried out, and the game
/// stays well-formed.
pub proof fn lemma_wf_can_act(v: GameView, target: CardTarget)
    requires
        v.wf(),
        target.location == CardLocation::Tableau ==> target.col_idx < 7,
    ensures
        v.can_act(target),
        v.after_action(target).wf(),
{
}

impl Klondike {
    /// Whether the game is over (see `GameView::game_over`).
    pub fn is_game_over(&self) -> (over: bool)
        ensures
            over == self@.game_over(),
    {
        let mut i: usize = 0;
        while i < 4
            invariant
                i <= 4,
                forall|j: int| 0 <= j < i ==> !(#[trigger] self@.piles[j].0.len() != 13 && self@.piles[j].1),
            decreases 4 - i,
        {
            if self.foundation.piles[i].0.len() != 13 && self.foundation.piles[i].1 {
                assert(self@.piles[i as int].0.len() != 13 && self@.piles[i as int].1);
                return false;
            }
            i += 1;
        }
        let mut c: usize = 0;
        while c < 7
            invariant
                c <= 7,
                forall|j: int| 0 <= j < c ==> #[trigger] self@.cols[j].len() == 0,
            decreases 7 - c,
        {
            if self.tableau.cols[c].len() != 0 {
                assert(self@.cols[c as int].len() != 0);
                return false;
            }
            c += 1;
        }
        self.stock.cards.len() == 0
    }

    /// Turns up the card just below the origin of the held cards (see
    /// `GameView::flip_below_origin`).
    fn flip_below_origin(&mut self)
        ensures
            final(self)@ == old(self)@.flip_below_origin(),
            final(self).statistics == old(self).statistics,
    {
        let o = self.cards_in_play.1;
        if o.col_idx < 7 && o.card_idx >= 1 {
            let k = o.card_idx - 1;
            if k < self.tableau.cols[o.col_idx].len() {
                let mut c = self.tableau.cols[o.col_idx][k];
                c.face_up = true;
                self.tableau.cols[o.col_idx].set(k, c);
            }
            assert(self@.cols =~= old(self)@.flip_below_origin().cols);
        }
    }

    /// Puts `cards` back at `target` (see `GameView::restored`).
    fn force_restore_cards(&mut self, cards: Vec<Card>, target: CardTarget)
        requires
            old(self)@.can_restore(cards@, target),
        ensures
            final(self)@ == old(self)@.restored(cards@, target),
            final(self).statistics == old(self).statistics,
    {
        match target.location {
            CardLocation::Tableau => {
                if target.col_idx < 7 {
                    append_cards(&mut self.tableau.cols[target.col_idx], &cards);
                    assert(self@.cols =~= old(self)@.restored(cards@, target).cols);
                }
            },
            CardLocation::Foundation => {
                if target.col_idx < 4 {
                    append_cards(&mut self.foundation.piles[target.col_idx].0, &cards);
                    assert(self@.piles =~= old(self)@.restored(cards@, target).piles);
                }
            },
            CardLocation::Stock => {
                self.stock.cards.insert(target.card_idx, cards[0]);
                self.stock.visible_idx = Some(target.card_idx);
            },
        }
    }

    /// Picks up the cards at `target` from the tableau (see `GameView::picked_up`).
    pub fn get_cards_in_play(&mut self, target: CardTarget) -> (r: Result<(), GameError>)
        ensures
            r is Ok,
            final(self)@ == old(self)@.picked_up(target),
            final(self).statistics == old(self).statistics,
    {
        let cards = match self.tableau.get_valid_cards_from(target) {
            Some(v) => v,
            None => Vec::new(),
        };
        self.cards_in_play = (cards, target);
        Ok(())
    }

    /// Puts the held cards on the tableau column of `target` (see `GameView::placed_hand`).
    pub fn place_cards_in_play(&mut self, target: CardTarget) -> (r: Result<(), GameError>)
        requires
            old(self)@.hand.len() > 0 ==> target.col_idx < 7,
            placed_on_column(old(self)@.cols[target.col_idx as int], old(self)@.hand) is Err ==> old(
                self,
            )@.can_restore(old(self)@.hand, old(self)@.origin),
        ensures
            r is Ok,
            final(self)@ == old(self)@.placed_hand(target),
            final(self).statistics == old(self).statistics,
    {
        match self.tableau.place_cards_in_col(&self.cards_in_play.0, target.col_idx) {
            Ok(()) => {
                self.flip_below_origin();
            },
            Err(_) => {
                let mut cards = Vec::new();
                std::mem::swap(&mut cards, &mut self.cards_in_play.0);
                self.force_restore_cards(cards, self.cards_in_play.1);
            },
        }
        self.cards_in_play.0.clear();
        Ok(())
    }

    /// Carries out a click of the player on `target` (see `GameView::after_action`). Refused
    /// moves put the held cards back; the result is always `Ok`.
    pub fn primary_action_at(&mut self, target: CardTarget) -> (r: Result<(), GameError>)
        requires
            old(self)@.can_act(target),
        ensures
            r is Ok,
            final(self)@ == old(self)@.after_action(target),
            old(self)@.wf() ==> final(self)@.wf(),
            final(self).statistics == old(self).statistics,
    {
        match target.location {
            CardLocation::Tableau => {
                if self.cards_in_play.0.len() == 0 {
                    self.get_cards_in_play(target)?;
                } else {
                    self.place_cards_in_play(target)?;
                }
            },
            CardLocation::Foundation => {
                if self.cards_in_play.0.len() == 0 {
                    if let Some(card) = self.foundation.take_card_from_pile(Suit::from(target.col_idx)) {
                        self.cards_in_play.0 = vec![card];
                        self.cards_in_play.1 = target;
                    }
                    assert(self@ =~= old(self)@.foundation_clicked(target));
                } else if self.cards_in_play.0.len() == 1 {
                    if let Some(card) = self.cards_in_play.0.pop() {
                        match self.foundation.place_card_on_pile(card, Suit::from(target.col_idx)) {
                            Ok(()) => {
                                self.flip_below_origin();
                            },
                            Err(_) => {
                                let back = vec![card];
                                assert(back@ =~= seq![card]);
                                self.force_restore_cards(back, self.cards_in_play.1);
                            },
                        }
                    }
                    assert(self@ =~= old(self)@.foundation_clicked(target));
                }
            },
            CardLocation::Stock => {
                if self.cards_in_play.0.len() == 0 {
                    if target.col_idx == 0 {
                        self.stock.get_new_visible();
                    } else if target.col_idx == 1 {
                        if let Some((card, card_idx)) = self.stock.take_visible() {
                            self.cards_in_play.0 = vec![card];
                            self.cards_in_play.1 = CardTarget { location: CardLocation::Stock, col_idx: 1, card_idx };
                        }
                    }
                    assert(self@ =~= old(self)@.stock_clicked(target));
                } else {
                    let mut cards = Vec::new();
                    std::mem::swap(&mut cards, &mut self.cards_in_play.0);
                    self.force_restore_cards(cards, self.cards_in_play.1);
                    self.cards_in_play.0.clear();
                    assert(self@ =~= old(self)@.stock_clicked(target));
                }
            },
        }
        Ok(())
    }
}

} // verus!
