//! What holds of every move of the game: no card is lost or made, the foundation piles stay in
//! order, the stock cycles, and cards picked up can be put back.
use vstd::prelude::*;
use vstd::multiset::Multiset;

use crate::card::{Card, Suit, Value};
use crate::logic::{deal, fresh_deck, next_visible, turn_stock, turn_up_at, turn_up_last, GameView};
use crate::renderer::target_at;
use crate::renderer::{CardLocation, CardTarget};

verus! {

broadcast use {vstd::multiset::group_multiset_axioms, vstd::seq_lib::to_multiset_len};

/// The cards of a sequence, each by its value and suit, face ignored.
pub open spec fn keys(s: Seq<Card>) -> Multiset<(Value, Suit)> {
    s.map_values(|c: Card| c.key()).to_multiset()
}

/// The cards of all the columns, each by its value and suit.
pub open spec fn column_keys(cols: Seq<Seq<Card>>) -> Multiset<(Value, Suit)>
    decreases cols.len(),
{
    if cols.len() == 0 {
        Multiset::empty()
    } else {
        column_keys(cols.drop_last()).add(keys(cols.last()))
    }
}

/// The cards of all the piles, each by its value and suit.
pub open spec fn pile_keys(piles: Seq<(Seq<Card>, bool)>) -> Multiset<(Value, Suit)>
    decreases piles.len(),
{
    if piles.len() == 0 {
        Multiset::empty()
    } else {
        pile_keys(piles.drop_last()).add(keys(piles.last().0))
    }
}

/// A target that names a pile of the table: one of the seven columns, one of the four
/// foundation piles, or the stock.
pub open spec fn target_exists(t: CardTarget) -> bool {
    match t.location {
        CardLocation::Tableau => t.col_idx < 7,
        CardLocation::Foundation => t.col_idx < 4,
        CardLocation::Stock => true,
    }
}

impl GameView {
    /// The cards on the table, held cards aside.
    pub open spec fn table_keys(self) -> Multiset<(Value, Suit)> {
        column_keys(self.cols).add(pile_keys(self.piles)).add(keys(self.stock))
    }

    /// All the cards of the game: on the table and in the hand.
    pub open spec fn deck(self) -> Multiset<(Value, Suit)> {
        self.table_keys().add(keys(self.hand))
    }

    /// Held cards have a place to go back to: a column or a pile of the table, or, for a
    /// single card from the stock, its old place there.
    pub open spec fn hand_returnable(self) -> bool {
        self.hand.len() > 0 ==> match self.origin.location {
            CardLocation::Tableau => self.origin.col_idx < 7,
            CardLocation::Foundation => self.origin.col_idx < 4,
            CardLocation::Stock => self.hand.len() == 1,
        }
    }
}

/// The count of a key in a multiset of one card.
pub open spec fn one_if(k: (Value, Suit), c: Card) -> int {
    if k == c.key() {
        1
    } else {
        0
    }
}

proof fn lemma_keys_concat(a: Seq<Card>, b: Seq<Card>)
    ensures
        forall|k: (Value, Suit)| #[trigger] keys(a + b).count(k) == keys(a).count(k) + keys(b).count(k),
{
    let f = |c: Card| c.key();
    assert((a + b).map_values(f) =~= a.map_values(f) + b.map_values(f));
    vstd::seq_lib::lemma_multiset_commutative(a.map_values(f), b.map_values(f));
    assert forall|k: (Value, Suit)| #[trigger] keys(a + b).count(k) == keys(a).count(k) + keys(b).count(k) by {
        assert(keys(a + b) == keys(a).add(keys(b)));
    }
}

proof fn lemma_keys_empty()
    ensures
        forall|k: (Value, Suit)| #[trigger] keys(Seq::<Card>::empty()).count(k) == 0,
{
    let f = |c: Card| c.key();
    assert(Seq::<Card>::empty().map_values(f) =~= Seq::<(Value, Suit)>::empty());
    assert(keys(Seq::<Card>::empty()).len() == 0);
}

proof fn lemma_keys_split(s: Seq<Card>, k: int)
    requires
        0 <= k <= s.len(),
    ensures
        forall|x: (Value, Suit)| #[trigger] keys(s).count(x) == keys(s.subrange(0, k)).count(x) + keys(
            s.subrange(k, s.len() as int),
        ).count(x),
{
    assert(s =~= s.subrange(0, k) + s.subrange(k, s.len() as int));
    lemma_keys_concat(s.subrange(0, k), s.subrange(k, s.len() as int));
}

proof fn lemma_keys_turn_up(s: Seq<Card>, i: int)
    ensures
        keys(turn_up_at(s, i)) == keys(s),
{
    let f = |c: Card| c.key();
    assert(turn_up_at(s, i).map_values(f) =~= s.map_values(f));
}

proof fn lemma_keys_single(c: Card)
    ensures
        forall|k: (Value, Suit)| #[trigger] keys(seq![c]).count(k) == one_if(k, c),
{
    let f = |c: Card| c.key();
    assert(seq![c].map_values(f) =~= Seq::<(Value, Suit)>::empty().push(c.key()));
    vstd::seq_lib::to_multiset_build(Seq::<(Value, Suit)>::empty(), c.key());
    assert(Seq::<(Value, Suit)>::empty().to_multiset().len() == 0);
    assert(Seq::<(Value, Suit)>::empty().to_multiset() =~= Multiset::empty());
}

proof fn lemma_keys_insert(s: Seq<Card>, i: int, c: Card)
    requires
        0 <= i <= s.len(),
    ensures
        forall|k: (Value, Suit)| #[trigger] keys(s.insert(i, c)).count(k) == keys(s).count(k) + one_if(k, c),
{
    let f = |c: Card| c.key();
    assert(s.insert(i, c).map_values(f) =~= s.map_values(f).insert(i, c.key()));
    vstd::seq_lib::to_multiset_insert(s.map_values(f), i, c.key());
}

proof fn lemma_keys_remove(s: Seq<Card>, i: int)
    requires
        0 <= i < s.len(),
    ensures
        forall|k: (Value, Suit)| #[trigger] keys(s).count(k) == keys(s.remove(i)).count(k) + one_if(k, s[i]),
{
    assert(s.remove(i).insert(i, s[i]) =~= s);
    lemma_keys_insert(s.remove(i), i, s[i]);
}

proof fn lemma_keys_drop_last(s: Seq<Card>)
    requires
        s.len() > 0,
    ensures
        forall|k: (Value, Suit)| #[trigger] keys(s).count(k) == keys(s.drop_last()).count(k) + one_if(k, s.last()),
{
    assert(s.drop_last() =~= s.remove(s.len() - 1));
    lemma_keys_remove(s, s.len() - 1);
}

proof fn lemma_column_keys_swap(cols: Seq<Seq<Card>>, i: int, x: Seq<Card>)
    requires
        0 <= i < cols.len(),
    ensures
        forall|k: (Value, Suit)| #[trigger] column_keys(cols.update(i, x)).count(k) == column_keys(cols).count(k)
            + keys(x).count(k) - keys(cols[i]).count(k),
{
    lemma_column_keys_update(cols, i, x);
    assert forall|k: (Value, Suit)| #[trigger] column_keys(cols.update(i, x)).count(k) == column_keys(
        cols,
    ).count(k) + keys(x).count(k) - keys(cols[i]).count(k) by {
        assert(column_keys(cols.update(i, x)).add(keys(cols[i])).count(k) == column_keys(cols).add(
            keys(x),
        ).count(k));
    }
}

proof fn lemma_pile_keys_swap(piles: Seq<(Seq<Card>, bool)>, i: int, p: (Seq<Card>, bool))
    requires
        0 <= i < piles.len(),
    ensures
        forall|k: (Value, Suit)| #[trigger] pile_keys(piles.update(i, p)).count(k) == pile_keys(piles).count(k)
            + keys(p.0).count(k) - keys(piles[i].0).count(k),
{
    lemma_pile_keys_update(piles, i, p);
    assert forall|k: (Value, Suit)| #[trigger] pile_keys(piles.update(i, p)).count(k) == pile_keys(
        piles,
    ).count(k) + keys(p.0).count(k) - keys(piles[i].0).count(k) by {
        assert(pile_keys(piles.update(i, p)).add(keys(piles[i].0)).count(k) == pile_keys(piles).add(
            keys(p.0),
        ).count(k));
    }
}

proof fn lemma_column_keys_update(cols: Seq<Seq<Card>>, i: int, x: Seq<Card>)
    requires
        0 <= i < cols.len(),
    ensures
        column_keys(cols.update(i, x)).add(keys(cols[i])) == column_keys(cols).add(keys(x)),
    decreases cols.len(),
{
    let u = cols.update(i, x);
    assert(column_keys(u) == column_keys(u.drop_last()).add(keys(u.last())));
    assert(column_keys(cols) == column_keys(cols.drop_last()).add(keys(cols.last())));
    if i == cols.len() - 1 {
        assert(u.drop_last() =~= cols.drop_last());
        assert(u.last() == x);
        let d = column_keys(cols.drop_last());
        assert(column_keys(u) == d.add(keys(x)));
        assert(column_keys(cols) == d.add(keys(cols[i])));
        assert(d.add(keys(x)).add(keys(cols[i])) =~= d.add(keys(cols[i])).add(keys(x)));
        assert(column_keys(u).add(keys(cols[i])) == d.add(keys(x)).add(keys(cols[i])));
        assert(column_keys(cols).add(keys(x)) == d.add(keys(cols[i])).add(keys(x)));
    } else {
        let dl = cols.drop_last();
        assert(u.drop_last() =~= dl.update(i, x));
        lemma_column_keys_update(dl, i, x);
        assert(u.last() == cols.last());
        assert(dl[i] == cols[i]);
        let a = column_keys(dl.update(i, x));
        let b = column_keys(dl);
        assert(a.add(keys(cols[i])) == b.add(keys(x)));
        assert(column_keys(u) == a.add(keys(cols.last())));
        assert(column_keys(cols) == b.add(keys(cols.last())));
        assert(a.add(keys(cols.last())).add(keys(cols[i])) =~= b.add(keys(cols.last())).add(keys(x))) by {
            assert(a.add(keys(cols.last())).add(keys(cols[i])) =~= a.add(keys(cols[i])).add(keys(cols.last())));
            assert(b.add(keys(cols.last())).add(keys(x)) =~= b.add(keys(x)).add(keys(cols.last())));
        }
    }
    assert(column_keys(u).add(keys(cols[i])) =~= column_keys(cols).add(keys(x)));
}

proof fn lemma_pile_keys_update(piles: Seq<(Seq<Card>, bool)>, i: int, p: (Seq<Card>, bool))
    requires
        0 <= i < piles.len(),
    ensures
        pile_keys(piles.update(i, p)).add(keys(piles[i].0)) == pile_keys(piles).add(keys(p.0)),
    decreases piles.len(),
{
    let u = piles.update(i, p);
    let dl = piles.drop_last();
    assert(pile_keys(u) == pile_keys(u.drop_last()).add(keys(u.last().0)));
    assert(pile_keys(piles) == pile_keys(dl).add(keys(piles.last().0)));
    if i == piles.len() - 1 {
        assert(u.drop_last() =~= dl);
        assert(u.last() == p);
        let d = pile_keys(dl);
        assert(pile_keys(u) == d.add(keys(p.0)));
        assert(pile_keys(piles) == d.add(keys(piles[i].0)));
        assert(d.add(keys(p.0)).add(keys(piles[i].0)) =~= d.add(keys(piles[i].0)).add(keys(p.0)));
    } else {
        assert(u.drop_last() =~= dl.update(i, p));
        lemma_pile_keys_update(dl, i, p);
        assert(u.last() == piles.last());
        assert(dl[i] == piles[i]);
        let a = pile_keys(dl.update(i, p));
        let b = pile_keys(dl);
        let l = keys(piles.last().0);
        assert(a.add(keys(piles[i].0)) == b.add(keys(p.0)));
        assert(pile_keys(u) == a.add(l));
        assert(a.add(l).add(keys(piles[i].0)) =~= b.add(l).add(keys(p.0))) by {
            assert(a.add(l).add(keys(piles[i].0)) =~= a.add(keys(piles[i].0)).add(l));
            assert(b.add(l).add(keys(p.0)) =~= b.add(keys(p.0)).add(l));
        }
    }
}

/// Turning up the card below the origin leaves the cards of the table as they were.
proof fn lemma_flip_keeps_table(v: GameView)
    requires
        v.wf(),
    ensures
        v.flip_below_origin().table_keys() == v.table_keys(),
        v.flip_below_origin().wf(),
{
    let o = v.origin;
    if o.col_idx < 7 && o.card_idx >= 1 {
        let col = v.cols[o.col_idx as int];
        lemma_keys_turn_up(col, o.card_idx - 1);
        lemma_column_keys_swap(v.cols, o.col_idx as int, turn_up_at(col, o.card_idx - 1));
        assert(v.flip_below_origin().table_keys() =~= v.table_keys());
    }
}

/// Putting cards back where they came from adds them to the table.
proof fn lemma_restored_adds(v: GameView, cards: Seq<Card>, t: CardTarget)
    requires
        v.wf(),
        target_exists(t),
        t.location == CardLocation::Stock ==> cards.len() == 1 && t.card_idx <= v.stock.len(),
    ensures
        forall|k: (Value, Suit)| #[trigger] v.restored(cards, t).table_keys().count(k) == v.table_keys().count(k)
            + keys(cards).count(k),
{
    match t.location {
        CardLocation::Tableau => {
            let c = t.col_idx as int;
            lemma_keys_concat(v.cols[c], cards);
            lemma_column_keys_swap(v.cols, c, v.cols[c] + cards);
        },
        CardLocation::Foundation => {
            let c = t.col_idx as int;
            lemma_keys_concat(v.piles[c].0, cards);
            lemma_pile_keys_swap(v.piles, c, (v.piles[c].0 + cards, v.piles[c].1));
        },
        CardLocation::Stock => {
            lemma_keys_insert(v.stock, t.card_idx as int, cards[0]);
            lemma_keys_single(cards[0]);
            assert(cards =~= seq![cards[0]]);
        },
    }
}

/// No card is lost or made by a click: the cards of the game, by value and suit, are the same
/// after any click on a pile of the table, and held cards can still go back.
pub proof fn law_cards_conserved(v: GameView, t: CardTarget)
    requires
        v.wf(),
        v.hand_returnable(),
        target_exists(t),
    ensures
        v.after_action(t).deck() == v.deck(),
        v.after_action(t).hand_returnable(),
{
    let w = v.after_action(t);
    lemma_keys_empty();
    match t.location {
        CardLocation::Tableau => {
            if v.hand.len() == 0 {
                let col = v.cols[t.col_idx as int];
                let k = t.card_idx as int;
                assert(v.hand =~= Seq::<Card>::empty());
                if k < col.len() && col[k].face_up {
                    lemma_keys_split(col, k);
                    lemma_column_keys_swap(v.cols, t.col_idx as int, col.subrange(0, k));
                }
                assert(w.deck() =~= v.deck());
            } else {
                let c = t.col_idx as int;
                match crate::logic::placed_on_column(v.cols[c], v.hand) {
                    Ok(newcol) => {
                        let placed = GameView { cols: v.cols.update(c, newcol), ..v };
                        if v.cols[c].len() == 0 {
                            assert(newcol == v.cols[c] + v.hand);
                        }
                        lemma_keys_concat(v.cols[c], v.hand);
                        lemma_column_keys_swap(v.cols, c, newcol);
                        lemma_flip_keeps_table(placed);
                        assert(placed.table_keys() =~= v.table_keys().add(keys(v.hand)));
                        assert(w.deck() =~= v.deck());
                    },
                    Err(_) => {
                        lemma_restored_adds(v, v.hand, v.origin);
                        let r = v.restored(v.hand, v.origin);
                        assert(w == r.empty_hand());
                        assert(w.table_keys() == r.table_keys());
                        assert(w.deck() =~= v.deck());
                    },
                }
            }
        },
        CardLocation::Foundation => {
            let s = Suit::at(t.col_idx as int);
            let (pile, complete) = v.piles[s.idx()];
            if v.hand.len() == 0 {
                assert(v.hand =~= Seq::<Card>::empty());
                if pile.len() > 0 {
                    lemma_keys_drop_last(pile);
                    lemma_pile_keys_swap(v.piles, s.idx(), (pile.drop_last(), complete));
                    lemma_keys_single(pile.last());
                }
                assert(w.deck() =~= v.deck());
            } else if v.hand.len() == 1 {
                let card = v.hand[0];
                assert(v.hand =~= seq![card]);
                lemma_keys_single(card);
                match crate::logic::placed_on_pile(pile, card, s) {
                    Ok(p) => {
                        let placed = GameView {
                            piles: v.piles.update(s.idx(), (p, card.value == Value::King)),
                            ..v.empty_hand()
                        };
                        lemma_keys_concat(pile, seq![card]);
                        assert(p == pile + seq![card]);
                        lemma_pile_keys_swap(v.piles, s.idx(), (p, card.value == Value::King));
                        lemma_flip_keeps_table(placed);
                        assert(placed.table_keys() =~= v.table_keys().add(keys(v.hand)));
                        assert(w.deck() =~= v.deck());
                    },
                    Err(_) => {
                        lemma_restored_adds(v.empty_hand(), seq![card], v.origin);
                        let r = v.empty_hand().restored(seq![card], v.origin);
                        assert(w == r);
                        assert(w.deck() =~= v.deck());
                    },
                }
            }
        },
        CardLocation::Stock => {
            if v.hand.len() == 0 {
                assert(v.hand =~= Seq::<Card>::empty());
                if t.col_idx == 0 {
                    let vis = crate::logic::next_visible(v.stock.len(), v.visible);
                    if let Some(i) = vis {
                        lemma_keys_turn_up(v.stock, i as int);
                        assert(keys(w.stock) == keys(v.stock));
                    }
                    assert(w.table_keys() == v.table_keys());
                    assert(w.deck() =~= v.deck());
                } else if t.col_idx == 1 {
                    if let Some(i) = v.visible {
                        lemma_keys_remove(v.stock, i as int);
                        lemma_keys_single(v.stock[i as int]);
                        assert(w.hand == seq![v.stock[i as int]]);
                        assert(w.stock == v.stock.remove(i as int));
                    }
                    assert(w.deck() =~= v.deck());
                } else {
                    assert(w.deck() =~= v.deck());
                }
            } else {
                lemma_restored_adds(v, v.hand, v.origin);
                let r = v.restored(v.hand, v.origin);
                assert(w == r.empty_hand());
                assert(w.table_keys() == r.table_keys());
                assert(w.deck() =~= v.deck());
            }
        },
    }
    assert(w.deck() =~= v.deck());
}

/// A foundation pile in order: its cards are of suit `s`, the Ace first, each one value higher
/// than the card below it.
pub open spec fn pile_in_order(pile: Seq<Card>, s: Suit) -> bool {
    forall|j: int| 0 <= j < pile.len() ==> (#[trigger] pile[j]).suit == s && pile[j].value.num() == j + 1
}

impl GameView {
    /// Every foundation pile is in order for its suit, and a card held from a foundation pile
    /// is the one that goes back on top of it.
    pub open spec fn foundations_in_order(self) -> bool {
        &&& forall|i: int| 0 <= i < 4 ==> pile_in_order(#[trigger] self.piles[i].0, Suit::at(i))
        &&& (self.hand.len() > 0 && self.origin.location == CardLocation::Foundation && self.origin.col_idx < 4)
            ==> self.hand.len() == 1 && pile_in_order(
            self.piles[self.origin.col_idx as int].0.push(self.hand[0]),
            Suit::at(self.origin.col_idx as int),
        )
    }
}

proof fn lemma_placed_keeps_order(pile: Seq<Card>, card: Card, s: Suit)
    requires
        pile_in_order(pile, s),
    ensures
        crate::logic::placed_on_pile(pile, card, s) matches Ok(p) ==> pile_in_order(p, s) && p == pile.push(card),
{
    if let Ok(p) = crate::logic::placed_on_pile(pile, card, s) {
        if pile.len() > 0 {
            assert(pile[pile.len() - 1].value.num() == pile.len());
        }
        assert forall|j: int| 0 <= j < p.len() implies (#[trigger] p[j]).suit == s && p[j].value.num() == j + 1 by {
            if j < pile.len() {
                assert(p[j] == pile[j]);
            }
        }
    }
}

proof fn lemma_suit_at_idx(i: int)
    requires
        0 <= i < 4,
    ensures
        Suit::at(i).idx() == i,
{
}

/// The foundation piles stay in order: every click keeps each pile a run of its suit from the
/// Ace up, and a card held from a pile still fits back on top of it.
pub proof fn law_foundations_in_order(v: GameView, t: CardTarget)
    requires
        v.wf(),
        v.foundations_in_order(),
    ensures
        v.after_action(t).foundations_in_order(),
{
    let w = v.after_action(t);
    let o = v.origin;
    // Putting the held cards back keeps the piles in order.
    assert(v.hand.len() > 0 ==> v.restored(v.hand, o).empty_hand().foundations_in_order()) by {
        if v.hand.len() > 0 && o.location == CardLocation::Foundation && o.col_idx < 4 {
            assert(v.hand =~= seq![v.hand[0]]);
            let r = v.restored(v.hand, o);
            assert forall|i: int| 0 <= i < 4 implies pile_in_order(#[trigger] r.piles[i].0, Suit::at(i)) by {
                if i == o.col_idx {
                    assert(r.piles[i].0 == v.piles[i].0.push(v.hand[0]));
                }
            }
        }
    }
    match t.location {
        CardLocation::Tableau => {
            if v.hand.len() > 0 {
                match crate::logic::placed_on_column(v.cols[t.col_idx as int], v.hand) {
                    Ok(_) => {},
                    Err(_) => {},
                }
            }
        },
        CardLocation::Foundation => {
            let s = Suit::at(t.col_idx as int);
            let (pile, complete) = v.piles[s.idx()];
            assert(pile_in_order(pile, s)) by {
                assert(v.piles[s.idx()].0 == pile);
            }
            if v.hand.len() == 0 {
                if pile.len() > 0 {
                    assert(pile.drop_last().push(pile.last()) =~= pile);
                    assert forall|i: int| 0 <= i < 4 implies pile_in_order(#[trigger] w.piles[i].0, Suit::at(i)) by {
                        if i == s.idx() {
                            assert(w.piles[i].0 == pile.drop_last());
                            assert forall|j: int| 0 <= j < pile.drop_last().len() implies (#[trigger] pile.drop_last()[j]).suit
                                == Suit::at(i) && pile.drop_last()[j].value.num() == j + 1 by {
                                assert(pile.drop_last()[j] == pile[j]);
                            }
                        }
                    }
                    if t.col_idx < 4 {
                        lemma_suit_at_idx(t.col_idx as int);
                        assert(w.piles[t.col_idx as int].0.push(w.hand[0]) == pile);
                    }
                }
            } else if v.hand.len() == 1 {
                let card = v.hand[0];
                lemma_placed_keeps_order(pile, card, s);
                match crate::logic::placed_on_pile(pile, card, s) {
                    Ok(p) => {
                        assert forall|i: int| 0 <= i < 4 implies pile_in_order(#[trigger] w.piles[i].0, Suit::at(i)) by {
                            if i == s.idx() {
                                assert(w.piles[i].0 == p);
                            }
                        }
                    },
                    Err(_) => {
                        assert(seq![card] =~= v.hand);
                        assert(w == v.restored(v.hand, o).empty_hand());
                    },
                }
            }
        },
        CardLocation::Stock => {},
    }
}

/// The stock card shown after the player turns `n` cards of a stock of `len` cards.
pub open spec fn visible_after(len: nat, idx: Option<usize>, n: nat) -> Option<usize>
    decreases n,
{
    if n == 0 {
        idx
    } else {
        next_visible(len, visible_after(len, idx, (n - 1) as nat))
    }
}

proof fn lemma_visible_after_add(len: nat, idx: Option<usize>, a: nat, b: nat)
    ensures
        visible_after(len, idx, a + b) == visible_after(len, visible_after(len, idx, a), b),
    decreases b,
{
    if b > 0 {
        lemma_visible_after_add(len, idx, a, (b - 1) as nat);
        assert((a + b - 1) as nat == a + (b - 1) as nat);
    }
}

proof fn lemma_visible_walk_down(len: nat, i: nat, k: nat)
    requires
        0 < len <= usize::MAX,
        k <= i < len,
    ensures
        visible_after(len, Some(i as usize), k) == Some((i - k) as usize),
    decreases k,
{
    if k > 0 {
        lemma_visible_walk_down(len, i, (k - 1) as nat);
    }
}

/// Turning the stock cycles through it: from the top card down to the bottom one, then no
/// card shown, then the top card again; after one more turn than the stock has cards, the
/// shown card is the one shown before.
pub proof fn law_stock_cycle(len: nat, idx: Option<usize>)
    requires
        0 < len <= usize::MAX,
        idx matches Some(i) ==> i < len,
    ensures
        visible_after(len, idx, len + 1) == idx,
{
    let top = (len - 1) as nat;
    assert(visible_after(len, None, 1) == Some(top as usize)) by {
        assert(visible_after(len, None, 0) == None::<usize>);
    }
    lemma_visible_walk_down(len, top, top);
    lemma_visible_after_add(len, None, 1, top);
    assert(visible_after(len, None, len) == Some(0usize));
    assert(visible_after(len, None, len + 1) == None::<usize>);
    match idx {
        None => {},
        Some(i) => {
            lemma_visible_walk_down(len, i as nat, i as nat);
            assert(visible_after(len, idx, (i + 1) as nat) == None::<usize>);
            let rest = (len - i) as nat;
            lemma_visible_after_add(len, idx, (i + 1) as nat, rest);
            lemma_visible_after_add(len, None, 1, (rest - 1) as nat);
            lemma_visible_walk_down(len, top, (rest - 1) as nat);
            assert((i + 1) as nat + rest == len + 1);
        },
    }
}

/// Cards picked up can be put back by a click on the stock: when a click with empty hands
/// picks up cards, a click on the stock that follows leaves the tableau, the foundation, the
/// stock and the shown stock card as they were before, with empty hands.
pub proof fn law_stock_click_puts_back(v: GameView, t: CardTarget, back: CardTarget)
    requires
        v.wf(),
        v.hand.len() == 0,
        target_exists(t),
        v.after_action(t).hand.len() > 0,
        back.location == CardLocation::Stock,
    ensures
        ({
            let w = v.after_action(t).after_action(back);
            &&& w.cols == v.cols
            &&& w.piles == v.piles
            &&& w.stock == v.stock
            &&& w.visible == v.visible
            &&& w.hand.len() == 0
        }),
{
    let u = v.after_action(t);
    let w = u.after_action(back);
    match t.location {
        CardLocation::Tableau => {
            let c = t.col_idx as int;
            let col = v.cols[c];
            let k = t.card_idx as int;
            assert(col.subrange(0, k) + col.subrange(k, col.len() as int) =~= col);
            assert(w.cols =~= v.cols);
        },
        CardLocation::Foundation => {
            lemma_suit_at_idx(t.col_idx as int);
            let (pile, complete) = v.piles[t.col_idx as int];
            assert(pile.drop_last() + seq![pile.last()] =~= pile);
            assert(w.piles =~= v.piles);
        },
        CardLocation::Stock => {
            let i = v.visible.unwrap() as int;
            assert(v.stock.remove(i).insert(i, v.stock[i]) =~= v.stock);
        },
    }
}

/// Every screen cell that shows a place on the table names a pile that exists, and a card
/// of a tableau column at most one past its top.
pub proof fn law_screen_targets_exist(cols: Seq<Seq<Card>>, x: int, y: int)
    requires
        cols.len() == 7,
        x >= 0,
        y >= 0,
    ensures
        target_at(cols, x, y) matches Some(t) ==> target_exists(t) && (t.location == CardLocation::Tableau
            ==> t.card_idx <= cols[t.col_idx as int].len()),
{
    if y < 5 && 24 <= x < 56 {
        assert((x - 24) / 8 < 4) by (nonlinear_arith)
            requires
                24 <= x < 56,
        ;
    }
    if y >= 5 && x < 56 {
        assert(x / 8 < 7) by (nonlinear_arith)
            requires
                0 <= x < 56,
        ;
        let n = cols[x / 8].len() as int;
        if n > 0 && y < 5 + 2 * (n - 1) {
            assert((y - 5) / 2 < n) by (nonlinear_arith)
                requires
                    5 <= y < 5 + 2 * (n - 1),
            ;
        }
    }
}

proof fn lemma_with_num(n: int)
    requires
        1 <= n <= 13,
    ensures
        Value::with_num(n).num() == n,
{
}

proof fn lemma_num_with(v: Value)
    ensures
        Value::with_num(v.num()) == v,
{
}

proof fn lemma_fresh_deck_at(i: int)
    requires
        0 <= i < 52,
    ensures
        fresh_deck()[i].value.num() == i / 4 + 1,
        fresh_deck()[i].suit.idx() == i % 4,
        !fresh_deck()[i].face_up,
        i == 4 * (i / 4) + i % 4,
        0 <= i % 4 < 4,
{
    assert(0 <= i / 4 < 13 && i == 4 * (i / 4) + i % 4 && 0 <= i % 4 < 4) by (nonlinear_arith)
        requires
            0 <= i < 52,
    ;
    lemma_with_num(i / 4 + 1);
}

/// A fresh deck holds every face-down card exactly once, and no face-up card.
pub proof fn law_fresh_deck_complete()
    ensures
        forall|c: Card| #[trigger] fresh_deck().to_multiset().count(c) == if c.face_up {
            0int
        } else {
            1int
        },
{
    let d = fresh_deck();
    assert forall|i: int, j: int| 0 <= i < d.len() && 0 <= j < d.len() && i != j implies d[i] != d[j] by {
        lemma_fresh_deck_at(i);
        lemma_fresh_deck_at(j);
    }
    assert(d.no_duplicates());
    d.lemma_multiset_has_no_duplicates();
    assert forall|c: Card| #[trigger] d.to_multiset().count(c) == if c.face_up {
        0int
    } else {
        1int
    } by {
        vstd::seq_lib::to_multiset_contains(d, c);
        if !c.face_up {
            let i = 4 * (c.value.num() - 1) + c.suit.idx();
            assert(1 <= c.value.num() <= 13 && 0 <= c.suit.idx() < 4);
            assert(0 <= i < 52);
            lemma_fresh_deck_at(i);
            assert(i / 4 == c.value.num() - 1 && i % 4 == c.suit.idx()) by (nonlinear_arith)
                requires
                    i == 4 * (c.value.num() - 1) + c.suit.idx(),
                    0 <= c.suit.idx() < 4,
            ;
            lemma_num_with(c.value);
            assert(d[i] == c);
            assert(d.contains(c));
        } else {
            assert(!d.contains(c));
        }
    }
}

proof fn lemma_keys_same_cards(a: Seq<Card>, b: Seq<Card>)
    requires
        a.to_multiset() == b.to_multiset(),
    ensures
        keys(a) == keys(b),
    decreases a.len(),
{
    broadcast use vstd::seq_lib::group_to_multiset_ensures;

    if a.len() == 0 {
        vstd::seq_lib::to_multiset_len(a);
        vstd::seq_lib::to_multiset_len(b);
        assert(b.len() == 0);
        assert(a =~= b);
    } else {
        let x = a.last();
        assert(a.to_multiset().count(x) > 0) by {
            assert(a.contains(x)) by {
                assert(a[a.len() - 1] == x);
            }
        }
        assert(b.contains(x));
        let j = choose|j: int| 0 <= j < b.len() && b[j] == x;
        let b2 = b.remove(j);
        assert(a.drop_last() =~= a.remove(a.len() - 1));
        assert(a.drop_last().to_multiset() =~= b2.to_multiset());
        lemma_keys_same_cards(a.drop_last(), b2);
        lemma_keys_drop_last(a);
        lemma_keys_remove(b, j);
        assert(keys(a) =~= keys(b));
    }
}

proof fn lemma_deal_keys(cards: Seq<Card>, n: nat)
    ensures
        forall|k: (Value, Suit)| #[trigger] keys(cards).count(k) == column_keys(deal(cards, n).0).count(k) + keys(
            deal(cards, n).1,
        ).count(k),
    decreases n,
{
    lemma_keys_empty();
    if n > 0 {
        lemma_deal_keys(cards, (n - 1) as nat);
        let (cols, rest) = deal(cards, (n - 1) as nat);
        let k = if (n as int) < rest.len() { n as int } else { rest.len() as int };
        let taken = rest.subrange(rest.len() - k, rest.len() as int);
        let new_cols = cols.push(turn_up_last(taken));
        assert(new_cols.drop_last() =~= cols);
        lemma_keys_split(rest, rest.len() - k);
        if taken.len() > 0 {
            lemma_keys_turn_up(taken, taken.len() - 1);
            assert(turn_up_last(taken) == turn_up_at(taken, taken.len() - 1));
        }
        assert(column_keys(new_cols) == column_keys(cols).add(keys(turn_up_last(taken))));
    } else {
        assert(column_keys(deal(cards, 0).0) =~= Multiset::empty());
    }
}

/// Dealing a game loses no card: the columns and the stock dealt from a deck hold the cards
/// of the deck; so a game dealt from a shuffled fresh deck holds all the cards of a fresh deck.
pub proof fn law_deal_keeps_cards(deck: Seq<Card>)
    ensures
        ({
            let (cols, stock) = deal(deck, 7);
            column_keys(cols).add(keys(stock)) == keys(deck)
        }),
        deck.to_multiset() == fresh_deck().to_multiset() ==> keys(deck) == keys(fresh_deck()),
{
    lemma_deal_keys(deck, 7);
    let (cols, stock) = deal(deck, 7);
    assert(column_keys(cols).add(keys(stock)) =~= keys(deck));
    if deck.to_multiset() == fresh_deck().to_multiset() {
        lemma_keys_same_cards(deck, fresh_deck());
    }
}

proof fn lemma_empty_piles(piles: Seq<(Seq<Card>, bool)>)
    requires
        forall|i: int| 0 <= i < piles.len() ==> #[trigger] piles[i].0.len() == 0,
    ensures
        pile_keys(piles) == Multiset::<(Value, Suit)>::empty(),
    decreases piles.len(),
{
    lemma_keys_empty();
    if piles.len() > 0 {
        lemma_empty_piles(piles.drop_last());
        assert(piles.last().0 =~= Seq::<Card>::empty());
        assert(pile_keys(piles) =~= Multiset::empty());
    }
}

/// A game just dealt from a deck, with empty piles and empty hands, holds exactly the cards
/// of the deck.
pub proof fn law_dealt_game_holds_deck(v: GameView, deck: Seq<Card>)
    requires
        (v.cols, v.stock) == deal(deck, 7),
        v.piles == Seq::new(4, |i: int| (Seq::<Card>::empty(), false)),
        v.hand.len() == 0,
    ensures
        v.deck() == keys(deck),
{
    lemma_keys_empty();
    law_deal_keeps_cards(deck);
    assert(v.hand =~= Seq::<Card>::empty());
    lemma_empty_piles(v.piles);
    assert(v.deck() =~= keys(deck));
}

/// Taking the top card of a foundation pile undoes placing a card on it: when a pile takes a
/// card, that card is its new top and the cards below it are the pile as it was.
pub proof fn law_pile_take_undoes_place(pile: Seq<Card>, card: Card, s: Suit)
    ensures
        crate::logic::placed_on_pile(pile, card, s) matches Ok(p) ==> p.len() > 0 && p.last() == card
            && p.drop_last() == pile,
{
    if let Ok(p) = crate::logic::placed_on_pile(pile, card, s) {
        assert(p.drop_last() =~= pile);
    }
}

/// Picking up undoes placing on the tableau: when a column takes a run whose first card is
/// face up, picking up from the index where the run starts gives back the run and leaves the
/// column as it was.
pub proof fn law_column_pick_undoes_place(col: Seq<Card>, cards: Seq<Card>)
    requires
        cards.len() > 0 ==> cards[0].face_up,
    ensures
        crate::logic::placed_on_column(col, cards) matches Ok(c) ==> {
            &&& col.len() < c.len()
            &&& c[col.len() as int].face_up
            &&& c.subrange(0, col.len() as int) == col
            &&& c.subrange(col.len() as int, c.len() as int) == cards
        },
{
    if let Ok(c) = crate::logic::placed_on_column(col, cards) {
        if col.len() == 0 {
            assert(c.subrange(0, 0) =~= col);
            assert(c.subrange(0, c.len() as int) =~= cards);
        } else {
            assert(c.subrange(0, col.len() as int) =~= col);
            assert(c.subrange(col.len() as int, c.len() as int) =~= cards);
        }
    }
}

/// The stock `cards` with shown card `idx` after the player turns `m` cards.
pub open spec fn turned_n(cards: Seq<Card>, idx: Option<usize>, m: nat) -> (Seq<Card>, Option<usize>)
    decreases m,
{
    if m == 0 {
        (cards, idx)
    } else {
        let (c, i) = turned_n(cards, idx, (m - 1) as nat);
        turn_stock(c, i)
    }
}

proof fn lemma_turned_pass(cards: Seq<Card>, m: nat)
    requires
        0 < cards.len() <= usize::MAX,
        1 <= m <= cards.len(),
    ensures
        turned_n(cards, None, m).1 == Some((cards.len() - m) as usize),
        turned_n(cards, None, m).0 == Seq::new(
            cards.len(),
            |j: int| if j >= cards.len() - m { cards[j].turned_up() } else { cards[j] },
        ),
    decreases m,
{
    let n = cards.len();
    if m == 1 {
        assert(turned_n(cards, None, 0) == (cards, None::<usize>));
        assert(turned_n(cards, None, 1).0 =~= Seq::new(
            n,
            |j: int| if j >= n - 1 { cards[j].turned_up() } else { cards[j] },
        ));
    } else {
        lemma_turned_pass(cards, (m - 1) as nat);
        assert(turned_n(cards, None, m).0 =~= Seq::new(
            n,
            |j: int| if j >= n - m { cards[j].turned_up() } else { cards[j] },
        ));
    }
}

/// One full pass of the stock shows every card once, from the top down, and turns them all
/// face up: starting with no card shown, turn `m` (from 1 to the number of cards) shows card
/// `len - m`, the turn after the last one shows no card, and then every card is face up, with
/// its value and suit, in its place.
pub proof fn law_stock_full_pass(cards: Seq<Card>)
    requires
        0 < cards.len() <= usize::MAX,
    ensures
        forall|m: nat| 1 <= m <= cards.len() ==> #[trigger] turned_n(cards, None, m).1 == Some(
            (cards.len() - m) as usize,
        ),
        turned_n(cards, None, cards.len() + 1).1 == None::<usize>,
        turned_n(cards, None, cards.len() + 1).0 == Seq::new(cards.len(), |j: int| cards[j].turned_up()),
{
    assert forall|m: nat| 1 <= m <= cards.len() implies #[trigger] turned_n(cards, None, m).1 == Some(
        (cards.len() - m) as usize,
    ) by {
        lemma_turned_pass(cards, m);
    }
    let n = cards.len();
    lemma_turned_pass(cards, n);
    assert(turned_n(cards, None, n + 1).0 =~= Seq::new(n, |j: int| cards[j].turned_up()));
}

/// Taking the shown stock card and putting it back where it was leaves the stock as it was,
/// with the same card shown.
pub proof fn law_stock_take_then_restore(v: GameView)
    requires
        v.visible matches Some(i) && i < v.stock.len(),
    ensures
        ({
            let i = v.visible.unwrap();
            let taken = GameView { stock: v.stock.remove(i as int), visible: None, ..v };
            let back = taken.restored(
                seq![v.stock[i as int]],
                CardTarget { location: CardLocation::Stock, col_idx: 1, card_idx: i },
            );
            back.stock == v.stock && back.visible == v.visible
        }),
{
    let i = v.visible.unwrap() as int;
    assert(v.stock.remove(i).insert(i, v.stock[i]) =~= v.stock);
}

/// A click on the tableau is a pick-up with empty hands and a placement otherwise: the game
/// after it is the game after `get_cards_in_play` when no card is held, and after
/// `place_cards_in_play` when cards are held.
pub proof fn law_tableau_click_routes(v: GameView, t: CardTarget)
    requires
        t.location == CardLocation::Tableau,
    ensures
        v.hand.len() == 0 ==> v.after_action(t) == v.picked_up(t),
        v.hand.len() > 0 ==> v.after_action(t) == v.placed_hand(t),
{
}

/// The rule of the tableau, on values and suits: a run goes onto a column exactly when it has
/// cards and either the column is empty and the run starts with a King, or the run's first
/// card is one value lower than the column's top card and of the other colour (hearts and
/// diamonds red, clubs and spades black); the column then is the old column followed by the run.
pub proof fn law_column_rule(col: Seq<Card>, cards: Seq<Card>)
    ensures
        (crate::logic::placed_on_column(col, cards) is Ok) <==> (cards.len() > 0 && if col.len() > 0 {
            &&& cards[0].value.num() + 1 == col[col.len() - 1].value.num()
            &&& (cards[0].suit == Suit::Hearts || cards[0].suit == Suit::Diamonds) != (col[col.len() - 1].suit
                == Suit::Hearts || col[col.len() - 1].suit == Suit::Diamonds)
        } else {
            cards[0].value == Value::King
        }),
        crate::logic::placed_on_column(col, cards) matches Ok(c) ==> c == col + cards,
{
    if let Ok(c) = crate::logic::placed_on_column(col, cards) {
        if col.len() == 0 {
            assert(col + cards =~= cards);
        }
    }
}

} // verus!
