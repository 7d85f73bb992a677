//! The match engine: board construction from a deck snapshot and the
//! two-click guess/match/mismatch protocol.

use vstd::prelude::*;
use vstd::multiset::Multiset;
use rand::seq::SliceRandom;
use crate::deck::{add_post, delete_post, set_text_post, Card, Deck};

verus! {

/// Face-up or face-down; a board slot's visible side.
#[derive(Clone, Copy, PartialEq, Eq, Structural, Debug)]
pub enum CardState {
    FaceUp,
    FaceDown,
}

/// One physical slot on the board: a copy of a deck card plus its own
/// revealed/matched flags.
pub struct PlayedCard {
    pub card: Card,
    pub displayed: CardState,
    pub matched: bool,
}

/// A freshly laid slot for `c`: face down and unmatched.
pub open spec fn face_down_slot(c: Card) -> PlayedCard {
    PlayedCard { card: c, displayed: CardState::FaceDown, matched: false }
}

/// The slot `pc` turned face up, flags otherwise as they were.
pub open spec fn revealed_slot(pc: PlayedCard) -> PlayedCard {
    PlayedCard { card: pc.card, displayed: CardState::FaceUp, matched: pc.matched }
}

/// The slot `pc` resolved: face up and matched for good.
pub open spec fn matched_slot(pc: PlayedCard) -> PlayedCard {
    PlayedCard { card: pc.card, displayed: CardState::FaceUp, matched: true }
}

/// The cards of `s` that can be played, in listing order.
pub open spec fn eligible_cards(s: Seq<Card>) -> Seq<Card>
    decreases s.len(),
{
    if s.len() == 0 {
        Seq::empty()
    } else {
        eligible_cards(s.drop_last()) + (if s.last().eligible() {
            seq![s.last()]
        } else {
            Seq::empty()
        })
    }
}

/// The unshuffled board for the cards `s`: two face-down slots per card, in
/// listing order.
pub open spec fn paired_board(s: Seq<Card>) -> Seq<PlayedCard>
    decreases s.len(),
{
    if s.len() == 0 {
        Seq::empty()
    } else {
        paired_board(s.drop_last()) + seq![face_down_slot(s.last()), face_down_slot(s.last())]
    }
}

/// The whole session: exactly one of deck editing (no board) or playing (a
/// board, with the pending-guess and mismatch-shown sub-states).
pub struct Model {
    pub game_started: bool,
    pub deck: Deck,
    pub board: Vec<PlayedCard>,
    pub last: Option<u128>,
    pub needs_reset: bool,
}

/// Everything a session may do, funnelled through [`update`].
pub enum NewCardType {
    OnePhoto(String),
    Empty,
}

pub enum Msg {
    NewCard(NewCardType),
    UpdateCardText { id: u128, text: String },
    DeleteCard(u128),
    GuessCard(usize),
    StartGame,
    ExitGame,
    ResetClick,
}

/// The photo that a new-card request carries, if any.
pub open spec fn new_card_photo(t: NewCardType) -> Option<String> {
    match t {
        NewCardType::OnePhoto(p) => Some(p),
        NewCardType::Empty => None,
    }
}

/// Acknowledging a mismatch: every unmatched slot flips face down, matched
/// slots stay exactly as they are, and the pending guess clears.
pub open spec fn face_down_post(pre: Model, post: Model) -> bool {
    &&& post.game_started == pre.game_started
    &&& post.deck == pre.deck
    &&& post.last is None
    &&& !post.needs_reset
    &&& post.board@.len() == pre.board@.len()
    &&& forall|i: int|
        0 <= i < pre.board@.len() ==> #[trigger] post.board@[i] == (if pre.board@[i].matched {
            pre.board@[i]
        } else {
            PlayedCard {
                card: pre.board@[i].card,
                displayed: CardState::FaceDown,
                matched: false,
            }
        })
}

/// The guess protocol, one call of `guess(index)`. With no board, or an
/// out-of-range index, nothing changes. In mismatch-shown state any call is
/// the acknowledgment. Otherwise a first guess reveals the slot and remembers
/// its card id; a second guess matches both twins of that card or shows the
/// mismatch and blocks until acknowledged.
pub open spec fn guess_post(pre: Model, post: Model, index: usize) -> bool {
    if !pre.game_started {
        post == pre
    } else if pre.needs_reset {
        face_down_post(pre, post)
    } else if index >= pre.board@.len() {
        post == pre
    } else {
        &&& post.game_started == pre.game_started
        &&& post.deck == pre.deck
        &&& match pre.last {
            None => {
                &&& post.board@ == pre.board@.update(
                    index as int,
                    revealed_slot(pre.board@[index as int]),
                )
                &&& post.last == Some(pre.board@[index as int].card.id)
                &&& !post.needs_reset
            },
            Some(l) => {
                if pre.board@[index as int].card.id == l {
                    &&& post.board@.len() == pre.board@.len()
                    &&& forall|i: int|
                        0 <= i < pre.board@.len() ==> #[trigger] post.board@[i] == (
                        if pre.board@[i].card.id == l {
                            matched_slot(pre.board@[i])
                        } else {
                            pre.board@[i]
                        })
                    &&& post.last is None
                    &&& !post.needs_reset
                } else {
                    &&& post.board@ == pre.board@.update(
                        index as int,
                        revealed_slot(pre.board@[index as int]),
                    )
                    &&& post.last == pre.last
                    &&& post.needs_reset
                }
            },
        }
    }
}

/// Starting a game: with fewer than two eligible cards nothing changes;
/// otherwise the deck is left untouched and the board becomes a fresh
/// permutation of two face-down slots per eligible card.
pub open spec fn start_post(pre: Model, post: Model) -> bool {
    if eligible_cards(pre.deck.cards@).len() < 2 {
        post == pre
    } else {
        &&& post.deck == pre.deck
        &&& post.game_started
        &&& post.last is None
        &&& !post.needs_reset
        &&& post.board@.len() == 2 * eligible_cards(pre.deck.cards@).len()
        &&& post.board@.to_multiset() == paired_board(eligible_cards(pre.deck.cards@)).to_multiset()
        &&& forall|i: int|
            0 <= i < post.board@.len() ==> !(#[trigger] post.board@[i]).matched
                && post.board@[i].displayed == CardState::FaceDown
    }
}

/// Exiting: board gone, deck emptied, back to deck editing.
pub open spec fn exit_post(post: Model) -> bool {
    &&& !post.game_started
    &&& post.deck.cards@.len() == 0
    &&& post.board@.len() == 0
    &&& post.last is None
    &&& !post.needs_reset
}

/// A slot that is matched never changes again, whatever the call did.
pub open spec fn matched_frame(pre: Model, post: Model) -> bool {
    &&& post.board@.len() == pre.board@.len()
    &&& forall|i: int|
        0 <= i < pre.board@.len() && #[trigger] pre.board@[i].matched ==> post.board@[i]
            == pre.board@[i]
}

/// The view rule for one slot: its content may be shown exactly when it is
/// revealed or matched; otherwise the rendering layer shows a placeholder
/// and the slot's 1-based display index.
pub open spec fn slot_shown_spec(pc: PlayedCard) -> bool {
    pc.displayed == CardState::FaceUp || pc.matched
}

/// Whether the rendering layer may show this slot's content.
pub fn slot_shown(pc: &PlayedCard) -> (r: bool)
    ensures
        r == slot_shown_spec(*pc),
{
    pc.displayed == CardState::FaceUp || pc.matched
}

/// Relies on rand's SliceRandom::shuffle: an in-place Fisher-Yates pass that
/// only swaps elements, so the result is a permutation of the input.
#[verifier::external_body]
fn shuffle_slots(v: &mut Vec<PlayedCard>)
    ensures
        final(v)@.len() == old(v)@.len(),
        final(v)@.to_multiset() == old(v)@.to_multiset(),
{
    v.as_mut_slice().shuffle(&mut rand::thread_rng());
}

/// Law: a board lays exactly two slots per card. For any card sequence, the
/// slots referencing a card appear in the unshuffled board exactly twice as
/// often as the card appears in the sequence.
pub proof fn lemma_two_slots_per_card(s: Seq<Card>, c: Card)
    ensures
        paired_board(s).to_multiset().count(face_down_slot(c)) == 2 * s.to_multiset().count(c),
    decreases s.len(),
{
    broadcast use vstd::seq_lib::group_to_multiset_ensures;
    broadcast use vstd::multiset::group_multiset_axioms;

    if s.len() == 0 {
        assert(paired_board(s).to_multiset() =~= Multiset::<PlayedCard>::empty());
        assert(s.to_multiset() =~= Multiset::<Card>::empty());
    } else {
        let t = s.drop_last();
        let x = s.last();
        lemma_two_slots_per_card(t, c);
        assert(s =~= t.push(x));
        assert(paired_board(s) =~= paired_board(t).push(face_down_slot(x)).push(
            face_down_slot(x),
        ));
        assert(paired_board(t).push(face_down_slot(x)).push(face_down_slot(x)).to_multiset()
            =~= paired_board(t).to_multiset().insert(face_down_slot(x)).insert(face_down_slot(x)));
        if x == c {
            assert(face_down_slot(x) == face_down_slot(c));
        } else {
            assert(face_down_slot(x) != face_down_slot(c));
        }
    }
}

/// Law: starting a game with at least two eligible cards yields a board on
/// which, for every card, the face-down slots referencing that card are
/// exactly twice as many as its occurrences among the eligible cards; a card
/// of the filtered deck is therefore referenced by exactly two slots.
pub proof fn lemma_start_two_slots(pre: Model, post: Model, c: Card)
    requires
        start_post(pre, post),
        eligible_cards(pre.deck.cards@).len() >= 2,
    ensures
        post.board@.to_multiset().count(face_down_slot(c)) == 2 * eligible_cards(
            pre.deck.cards@,
        ).to_multiset().count(c),
{
    lemma_two_slots_per_card(eligible_cards(pre.deck.cards@), c);
}

/// The filtered listing of a deck with strictly increasing ids keeps every
/// element of the deck, in order: its entries come from the deck and their
/// ids still strictly increase.
proof fn lemma_eligible_sorted(s: Seq<Card>)
    requires
        forall|i: int, j: int|
            #![trigger s[i], s[j]]
            0 <= i < j < s.len() ==> s[i].id < s[j].id,
    ensures
        forall|k: int|
            0 <= k < eligible_cards(s).len() ==> s.contains(#[trigger] eligible_cards(s)[k]),
        forall|i: int, j: int|
            #![trigger eligible_cards(s)[i], eligible_cards(s)[j]]
            0 <= i < j < eligible_cards(s).len() ==> eligible_cards(s)[i].id < eligible_cards(
                s,
            )[j].id,
    decreases s.len(),
{
    if s.len() > 0 {
        let t = s.drop_last();
        let x = s.last();
        lemma_eligible_sorted(t);
        assert forall|k: int|
            0 <= k < eligible_cards(s).len() implies s.contains(
            #[trigger] eligible_cards(s)[k],
        ) by {
            if k < eligible_cards(t).len() {
                assert(eligible_cards(s)[k] == eligible_cards(t)[k]);
                let i = choose|i: int| 0 <= i < t.len() && t[i] == eligible_cards(t)[k];
                assert(s[i] == eligible_cards(s)[k]);
            } else {
                assert(eligible_cards(s)[k] == x);
                assert(s[s.len() - 1] == x);
            }
        }
        assert forall|i: int, j: int|
            0 <= i < j < eligible_cards(s).len() implies (#[trigger] eligible_cards(s)[i]).id < (
        #[trigger] eligible_cards(s)[j]).id by {
            if j < eligible_cards(t).len() {
                assert(eligible_cards(s)[i] == eligible_cards(t)[i]);
                assert(eligible_cards(s)[j] == eligible_cards(t)[j]);
            } else {
                assert(eligible_cards(s)[j] == x);
                assert(eligible_cards(s)[i] == eligible_cards(t)[i]);
                let a = choose|a: int| 0 <= a < t.len() && t[a] == eligible_cards(t)[i];
                assert(s[a] == eligible_cards(t)[i]);
                assert(s[a].id < s[s.len() - 1].id);
            }
        }
    }
}

/// Law: on the board of a freshly started game, every card of the filtered
/// deck is referenced by exactly two slots.
pub proof fn lemma_start_exactly_two(pre: Model, post: Model, c: Card)
    requires
        start_post(pre, post),
        pre.wf(),
        eligible_cards(pre.deck.cards@).len() >= 2,
        eligible_cards(pre.deck.cards@).contains(c),
    ensures
        post.board@.to_multiset().count(face_down_slot(c)) == 2,
{
    broadcast use vstd::seq_lib::group_to_multiset_ensures;

    let e = eligible_cards(pre.deck.cards@);
    lemma_eligible_sorted(pre.deck.cards@);
    assert(e.no_duplicates()) by {
        assert forall|i: int, j: int|
            0 <= i < e.len() && 0 <= j < e.len() && i != j implies e[i] != e[j] by {
            if i < j {
                assert(e[i].id < e[j].id);
            } else {
                assert(e[j].id < e[i].id);
            }
        }
    }
    e.lemma_multiset_has_no_duplicates();
    assert(e.to_multiset().count(c) == 1);
    lemma_two_slots_per_card(e, c);
}

/// Every entry of the filtered listing can be played.
proof fn lemma_eligible_all(s: Seq<Card>)
    ensures
        forall|k: int|
            0 <= k < eligible_cards(s).len() ==> (#[trigger] eligible_cards(s)[k]).eligible(),
    decreases s.len(),
{
    if s.len() > 0 {
        let t = s.drop_last();
        lemma_eligible_all(t);
        assert forall|k: int|
            0 <= k < eligible_cards(s).len() implies (#[trigger] eligible_cards(
            s,
        )[k]).eligible() by {
            if k < eligible_cards(t).len() {
                assert(eligible_cards(s)[k] == eligible_cards(t)[k]);
            } else {
                assert(eligible_cards(s)[k] == s.last());
            }
        }
    }
}

/// Law: a card with neither text nor photo never reaches a board; every
/// slot of a freshly started game references a playable card.
pub proof fn lemma_board_only_eligible(pre: Model, post: Model)
    requires
        start_post(pre, post),
        eligible_cards(pre.deck.cards@).len() >= 2,
    ensures
        forall|i: int|
            0 <= i < post.board@.len() ==> (#[trigger] post.board@[i]).card.eligible(),
{
    broadcast use vstd::seq_lib::group_to_multiset_ensures;

    let elig = eligible_cards(pre.deck.cards@);
    lemma_eligible_all(pre.deck.cards@);
    lemma_paired_board_face_down(elig);
    assert forall|i: int|
        0 <= i < post.board@.len() implies (#[trigger] post.board@[i]).card.eligible() by {
        assert(post.board@.to_multiset().contains(post.board@[i]));
        assert(paired_board(elig).to_multiset().contains(post.board@[i]));
        assert(paired_board(elig).contains(post.board@[i]));
        let j = choose|j: int|
            0 <= j < paired_board(elig).len() && paired_board(elig)[j] == post.board@[i];
        assert(paired_board(elig)[j] == face_down_slot(elig[j / 2]));
    }
}

/// Every slot of an unshuffled board is face down and unmatched.
proof fn lemma_paired_board_face_down(s: Seq<Card>)
    ensures
        paired_board(s).len() == 2 * s.len(),
        forall|k: int|
            0 <= k < paired_board(s).len() ==> #[trigger] paired_board(s)[k] == face_down_slot(
                s[k / 2],
            ),
    decreases s.len(),
{
    if s.len() > 0 {
        lemma_paired_board_face_down(s.drop_last());
    }
}

impl Model {
    /// A matched slot shows face up, and outside a game there is no board,
    /// no pending guess and no mismatch on show.
    pub open spec fn wf(self) -> bool {
        &&& self.deck.wf()
        &&& forall|i: int|
            0 <= i < self.board@.len() && #[trigger] self.board@[i].matched ==> self.board@[i].displayed
                == CardState::FaceUp
        &&& (!self.game_started ==> self.board@.len() == 0 && self.last is None
            && !self.needs_reset)
    }

    /// A fresh session: empty deck, deck-editing state.
    pub fn new_session() -> (m: Model)
        ensures
            m.wf(),
            exit_post(m),
    {
        Model {
            game_started: false,
            deck: Deck::new(),
            board: Vec::new(),
            last: None,
            needs_reset: false,
        }
    }

    /// Law: one call of `guess` never touches a matched slot, so no
    /// sequence of calls does either; preservation carries across steps.
    pub proof fn lemma_matched_frame_composes(a: Model, b: Model, c: Model)
        requires
            matched_frame(a, b),
            matched_frame(b, c),
        ensures
            matched_frame(a, c),
    {
        assert forall|i: int|
            0 <= i < a.board@.len() && #[trigger] a.board@[i].matched implies c.board@[i]
            == a.board@[i] by {
            assert(b.board@[i] == a.board@[i]);
        }
    }

    /// Turn every unmatched slot face down and clear the pending guess.
    pub fn all_face_down(&mut self)
        requires
            old(self).wf(),
        ensures
            final(self).wf(),
            face_down_post(*old(self), *final(self)),
    {
        let n = self.board.len();
        let mut i: usize = 0;
        while i < n
            invariant
                i <= n,
                n == self.board@.len(),
                self.deck == old(self).deck,
                self.game_started == old(self).game_started,
                self.last == old(self).last,
                self.needs_reset == old(self).needs_reset,
                old(self).wf(),
                forall|k: int| i <= k < n ==> #[trigger] self.board@[k] == old(self).board@[k],
                forall|k: int|
                    0 <= k < i ==> #[trigger] self.board@[k] == (if old(self).board@[k].matched {
                        old(self).board@[k]
                    } else {
                        PlayedCard {
                            card: old(self).board@[k].card,
                            displayed: CardState::FaceDown,
                            matched: false,
                        }
                    }),
            decreases n - i,
        {
            if !self.board[i].matched {
                let ghost prev = self.board@;
                let mut pc = self.board.remove(i);
                pc.displayed = CardState::FaceDown;
                self.board.insert(i, pc);
                proof {
                    assert(self.board@ =~= prev.update(i as int, self.board@[i as int]));
                }
            }
            i += 1;
        }
        self.needs_reset = false;
        self.last = None;
    }

    /// The single entry point of the guess protocol; see [`guess_post`].
    pub fn guess(&mut self, index: usize)
        requires
            old(self).wf(),
        ensures
            final(self).wf(),
            guess_post(*old(self), *final(self), index),
            matched_frame(*old(self), *final(self)),
    {
        if !self.game_started {
            return ;
        }
        if self.needs_reset {
            self.all_face_down();
            return ;
        }
        if index >= self.board.len() {
            return ;
        }
        match self.last {
            Option::Some(l) => {
                let just = self.board[index].card.id;
                if just == l {
                    let n = self.board.len();
                    let mut i: usize = 0;
                    while i < n
                        invariant
                            i <= n,
                            n == self.board@.len(),
                            self.deck == old(self).deck,
                            self.game_started == old(self).game_started,
                            self.last == old(self).last,
                            self.needs_reset == old(self).needs_reset,
                            old(self).wf(),
                            forall|k: int|
                                i <= k < n ==> #[trigger] self.board@[k] == old(self).board@[k],
                            forall|k: int|
                                0 <= k < i ==> #[trigger] self.board@[k] == (
                                if old(self).board@[k].card.id == l {
                                    matched_slot(old(self).board@[k])
                                } else {
                                    old(self).board@[k]
                                }),
                        decreases n - i,
                    {
                        if self.board[i].card.id == l {
                            let ghost prev = self.board@;
                            let mut pc = self.board.remove(i);
                            pc.displayed = CardState::FaceUp;
                            pc.matched = true;
                            self.board.insert(i, pc);
                            proof {
                                assert(self.board@ =~= prev.update(i as int, self.board@[i as int]));
                            }
                        }
                        i += 1;
                    }
                    self.last = None;
                } else {
                    let mut pc = self.board.remove(index);
                    pc.displayed = CardState::FaceUp;
                    self.board.insert(index, pc);
                    self.needs_reset = true;
                    proof {
                        assert(self.board@ =~= old(self).board@.update(
                            index as int,
                            revealed_slot(old(self).board@[index as int]),
                        ));
                    }
                }
            },
            Option::None => {
                let id = self.board[index].card.id;
                let mut pc = self.board.remove(index);
                pc.displayed = CardState::FaceUp;
                self.board.insert(index, pc);
                self.last = Some(id);
                proof {
                    assert(self.board@ =~= old(self).board@.update(
                        index as int,
                        revealed_slot(old(self).board@[index as int]),
                    ));
                }
            },
        }
    }

    /// Freeze the deck into a fresh shuffled board and start playing; with
    /// fewer than two eligible cards this is a no-op.
    #[verifier::rlimit(60)]
    pub fn start_game(&mut self)
        requires
            old(self).wf(),
        ensures
            final(self).wf(),
            start_post(*old(self), *final(self)),
    {
        let n = self.deck.cards.len();
        let mut count: usize = 0;
        let mut i: usize = 0;
        while i < n
            invariant
                i <= n,
                n == self.deck.cards@.len(),
                count == eligible_cards(self.deck.cards@.take(i as int)).len(),
                count <= i,
            decreases n - i,
        {
            let c = &self.deck.cards[i];
            proof {
                assert(self.deck.cards@.take(i + 1).drop_last() =~= self.deck.cards@.take(
                    i as int,
                ));
                assert(self.deck.cards@.take(i + 1).last() == self.deck.cards@[i as int]);
            }
            if c.text.is_some() || c.photo.is_some() {
                count += 1;
            }
            i += 1;
        }
        proof {
            assert(self.deck.cards@.take(n as int) =~= self.deck.cards@);
        }
        if count < 2 {
            return ;
        }
        let mut nb: Vec<PlayedCard> = Vec::new();
        let mut i: usize = 0;
        while i < n
            invariant
                i <= n,
                n == self.deck.cards@.len(),
                self.deck == old(self).deck,
                nb@ =~= paired_board(eligible_cards(self.deck.cards@.take(i as int))),
            decreases n - i,
        {
            proof {
                assert(self.deck.cards@.take(i + 1).drop_last() =~= self.deck.cards@.take(
                    i as int,
                ));
                assert(self.deck.cards@.take(i + 1).last() == self.deck.cards@[i as int]);
            }
            let eligible = self.deck.cards[i].text.is_some() || self.deck.cards[i].photo.is_some();
            if eligible {
                let c1 = self.deck.cards[i].duplicate();
                let c2 = self.deck.cards[i].duplicate();
                nb.push(PlayedCard { card: c1, displayed: CardState::FaceDown, matched: false });
                nb.push(PlayedCard { card: c2, displayed: CardState::FaceDown, matched: false });
                proof {
                    let e = eligible_cards(self.deck.cards@.take(i as int));
                    assert(eligible_cards(self.deck.cards@.take(i + 1)) =~= e.push(
                        self.deck.cards@[i as int],
                    ));
                    assert(e.push(self.deck.cards@[i as int]).drop_last() =~= e);
                    assert(paired_board(e.push(self.deck.cards@[i as int])) =~= paired_board(e)
                        + seq![
                        face_down_slot(self.deck.cards@[i as int]),
                        face_down_slot(self.deck.cards@[i as int]),
                    ]);
                }
            } else {
                proof {
                    assert(eligible_cards(self.deck.cards@.take(i + 1)) =~= eligible_cards(
                        self.deck.cards@.take(i as int),
                    ));
                }
            }
            i += 1;
        }
        proof {
            assert(self.deck.cards@.take(n as int) =~= self.deck.cards@);
            lemma_paired_board_face_down(eligible_cards(self.deck.cards@));
        }
        shuffle_slots(&mut nb);
        proof {
            broadcast use vstd::seq_lib::group_to_multiset_ensures;

            let elig = eligible_cards(self.deck.cards@);
            assert forall|k: int|
                0 <= k < nb@.len() implies !(#[trigger] nb@[k]).matched && nb@[k].displayed
                == CardState::FaceDown by {
                assert(nb@.to_multiset().contains(nb@[k]));
                assert(paired_board(elig).to_multiset().contains(nb@[k]));
                assert(paired_board(elig).contains(nb@[k]));
                let j = choose|j: int|
                    0 <= j < paired_board(elig).len() && paired_board(elig)[j] == nb@[k];
                assert(paired_board(elig)[j] == face_down_slot(elig[j / 2]));
            }
        }
        self.board = nb;
        self.game_started = true;
        self.last = None;
        self.needs_reset = false;
    }

    /// End the session: clear the board, the pending guess and the deck, and
    /// return to deck editing.
    pub fn exit_game(&mut self)
        ensures
            final(self).wf(),
            exit_post(*final(self)),
    {
        self.deck = Deck::new();
        self.board = Vec::new();
        self.game_started = false;
        self.last = None;
        self.needs_reset = false;
    }
}

impl Default for Model {
    /// A fresh session, exactly as [`Model::new_session`] builds it.
    fn default() -> (m: Model)
        ensures
            m.wf(),
            exit_post(m),
    {
        Model::new_session()
    }
}

/// The session reducer: one discrete action in, the next session state out.
pub fn update(msg: Msg, model: &mut Model)
    requires
        old(model).wf(),
    ensures
        final(model).wf(),
        match msg {
            Msg::NewCard(t) => {
                &&& exists|id: u128|
                    add_post(old(model).deck, final(model).deck, id, new_card_photo(t))
                &&& final(model).board@ == old(model).board@
                &&& final(model).game_started == old(model).game_started
                &&& final(model).last == old(model).last
                &&& final(model).needs_reset == old(model).needs_reset
            },
            Msg::UpdateCardText { id, text } => {
                &&& set_text_post(old(model).deck, final(model).deck, id, text)
                &&& final(model).board@ == old(model).board@
                &&& final(model).game_started == old(model).game_started
                &&& final(model).last == old(model).last
                &&& final(model).needs_reset == old(model).needs_reset
            },
            Msg::DeleteCard(id) => {
                &&& delete_post(old(model).deck, final(model).deck, id)
                &&& final(model).board@ == old(model).board@
                &&& final(model).game_started == old(model).game_started
                &&& final(model).last == old(model).last
                &&& final(model).needs_reset == old(model).needs_reset
            },
            Msg::GuessCard(index) => guess_post(*old(model), *final(model), index)
                && matched_frame(*old(model), *final(model)),
            Msg::StartGame => start_post(*old(model), *final(model)),
            Msg::ExitGame => exit_post(*final(model)),
            Msg::ResetClick => face_down_post(*old(model), *final(model)),
        },
{
    match msg {
        Msg::NewCard(t) => {
            let ghost gt = t;
            let photo = match t {
                NewCardType::OnePhoto(p) => Some(p),
                NewCardType::Empty => None,
            };
            proof {
                assert(photo == new_card_photo(gt));
            }
            let id = model.deck.add_card(photo);
            proof {
                assert(add_post(old(model).deck, model.deck, id, new_card_photo(gt)));
            }
        },
        Msg::UpdateCardText { id, text } => {
            model.deck.set_card_text(id, text);
        },
        Msg::DeleteCard(id) => {
            model.deck.delete_card(id);
        },
        Msg::GuessCard(index) => {
            model.guess(index);
        },
        Msg::StartGame => {
            model.start_game();
        },
        Msg::ExitGame => {
            model.exit_game();
        },
        Msg::ResetClick => {
            model.all_face_down();
        },
    }
}

} // verus!
