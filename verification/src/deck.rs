//! The deck store: the authored cards, keyed by a unique identifier and
//! listed in key order.

use vstd::prelude::*;

verus! {

/// An authored deck entry. Text and photo are both optional; a card with
/// neither is legal in the deck but is excluded when a board is built.
pub struct Card {
    pub id: u128,
    pub text: Option<String>,
    pub photo: Option<String>,
}

impl Card {
    /// Only a card with some visible content can be played.
    pub open spec fn eligible(self) -> bool {
        self.text is Some || self.photo is Some
    }

    /// An exact copy: same id, same text, same photo.
    pub fn duplicate(&self) -> (r: Card)
        ensures
            r == *self,
    {
        Card {
            id: self.id,
            text: clone_opt_string(&self.text),
            photo: clone_opt_string(&self.photo),
        }
    }
}

fn clone_opt_string(s: &Option<String>) -> (r: Option<String>)
    ensures
        r == *s,
{
    match s {
        Option::Some(x) => Option::Some(x.clone()),
        Option::None => Option::None,
    }
}

/// Relies on ulid::Ulid::new: an identifier drawn from the clock and process
/// randomness. Nothing is promised of the value.
#[verifier::external_body]
fn fresh_card_id() -> u128 {
    ulid::Ulid::new().0
}

/// The deck store. Cards are held sorted by id, strictly increasing, so ids
/// are unique and listing walks them in key order.
pub struct Deck {
    pub cards: Vec<Card>,
}

/// What adding a card leaves behind: the id is present afterwards; a fresh
/// id goes in at its sorted place with no text and the given photo, while an
/// id already taken leaves the deck exactly as it was.
pub open spec fn add_post(pre: Deck, post: Deck, id: u128, photo: Option<String>) -> bool {
    &&& post.wf()
    &&& post.contains_id(id)
    &&& (pre.contains_id(id) ==> post == pre)
    &&& (!pre.contains_id(id) ==> {
        &&& post.cards@.len() == pre.cards@.len() + 1
        &&& exists|j: int|
            0 <= j <= pre.cards@.len() && post.cards@ == pre.cards@.insert(
                j,
                (Card { id: id, text: None, photo: photo }),
            )
    })
}

/// What setting a card's text leaves behind: empty text or an unknown id
/// changes nothing; otherwise exactly that card's text is replaced.
pub open spec fn set_text_post(pre: Deck, post: Deck, id: u128, text: String) -> bool {
    &&& post.wf()
    &&& (text@.len() == 0 ==> post == pre)
    &&& (!pre.contains_id(id) ==> post == pre)
    &&& (text@.len() > 0 && pre.contains_id(id) ==> exists|i: int|
        0 <= i < pre.cards@.len() && #[trigger] pre.cards@[i].id == id && post.cards@
            == pre.cards@.update(
            i,
            (Card { id: id, text: Some(text), photo: pre.cards@[i].photo }),
        ))
}

/// What deleting a card leaves behind: a present id is removed, a missing id
/// changes nothing; afterwards the id is gone either way.
pub open spec fn delete_post(pre: Deck, post: Deck, id: u128) -> bool {
    &&& post.wf()
    &&& (!pre.contains_id(id) ==> post == pre)
    &&& (pre.contains_id(id) ==> {
        &&& post.cards@.len() + 1 == pre.cards@.len()
        &&& exists|i: int|
            0 <= i < pre.cards@.len() && #[trigger] pre.cards@[i].id == id && post.cards@
                == pre.cards@.remove(i)
    })
    &&& !post.contains_id(id)
}

/// Law: the deck's size is the number of adds minus the successful deletes.
/// Each add of a fresh id grows the listing by exactly one card, and an add
/// of a taken id changes nothing, so over any sequence of operations the
/// sizes telescope.
pub proof fn lemma_add_size(pre: Deck, post: Deck, id: u128, photo: Option<String>)
    requires
        add_post(pre, post, id, photo),
    ensures
        post.cards@.len() == pre.cards@.len() + (if pre.contains_id(id) {
            0int
        } else {
            1int
        }),
{
}

/// Law: a delete of a present id shrinks the deck by exactly one card, and
/// deleting a non-existent id never changes the size.
pub proof fn lemma_delete_size(pre: Deck, post: Deck, id: u128)
    requires
        delete_post(pre, post, id),
    ensures
        post.cards@.len() == pre.cards@.len() - (if pre.contains_id(id) {
            1int
        } else {
            0int
        }),
{
}

/// Law: setting empty text never changes the stored text, whatever text the
/// card held before, and nothing else either.
pub proof fn lemma_empty_text_noop(pre: Deck, post: Deck, id: u128, text: String)
    requires
        set_text_post(pre, post, id, text),
        text@.len() == 0,
    ensures
        post == pre,
{
}

impl Deck {
    /// Ids strictly increase along the listing.
    pub open spec fn wf(self) -> bool {
        forall|i: int, j: int|
            #![trigger self.cards@[i], self.cards@[j]]
            0 <= i < j < self.cards@.len() ==> self.cards@[i].id < self.cards@[j].id
    }

    pub open spec fn contains_id(self, id: u128) -> bool {
        exists|i: int| 0 <= i < self.cards@.len() && #[trigger] self.cards@[i].id == id
    }

    pub fn new() -> (d: Deck)
        ensures
            d.wf(),
            d.cards@.len() == 0,
    {
        Deck { cards: Vec::new() }
    }

    pub fn len(&self) -> (n: usize)
        ensures
            n == self.cards@.len(),
    {
        self.cards.len()
    }

    /// The current cards, in key order; for display only.
    pub fn list_cards(&self) -> (r: &Vec<Card>)
        ensures
            r@ == self.cards@,
    {
        &self.cards
    }

    /// The first position whose id is not below `id`.
    fn lower_bound(&self, id: u128) -> (i: usize)
        requires
            self.wf(),
        ensures
            i <= self.cards@.len(),
            forall|k: int| 0 <= k < i ==> #[trigger] self.cards@[k].id < id,
            i < self.cards@.len() ==> self.cards@[i as int].id >= id,
    {
        let n = self.cards.len();
        let mut i: usize = 0;
        while i < n
            invariant
                i <= n,
                n == self.cards@.len(),
                forall|k: int| 0 <= k < i ==> #[trigger] self.cards@[k].id < id,
            decreases n - i,
        {
            if self.cards[i].id >= id {
                return i;
            }
            i += 1;
        }
        i
    }

    /// The position of `id` in the listing, if it is present.
    fn find_index(&self, id: u128) -> (r: Option<usize>)
        ensures
            match r {
                Some(i) => i < self.cards@.len() && self.cards@[i as int].id == id,
                None => !self.contains_id(id),
            },
    {
        let n = self.cards.len();
        let mut i: usize = 0;
        while i < n
            invariant
                i <= n,
                n == self.cards@.len(),
                forall|k: int| 0 <= k < i ==> #[trigger] self.cards@[k].id != id,
            decreases n - i,
        {
            if self.cards[i].id == id {
                return Some(i);
            }
            i += 1;
        }
        None
    }

    /// Create a card with a fresh id, the given photo and no text, and file
    /// it under its id. An id that is somehow already taken is left alone.
    pub fn add_card(&mut self, photo: Option<String>) -> (id: u128)
        requires
            old(self).wf(),
        ensures
            add_post(*old(self), *final(self), id, photo),
    {
        let id = fresh_card_id();
        let i = self.lower_bound(id);
        if i < self.cards.len() && self.cards[i].id == id {
            return id;
        }
        proof {
            assert forall|k: int|
                0 <= k < old(self).cards@.len() implies #[trigger] old(self).cards@[k].id
                != id by {
                if k >= i {
                    assert(old(self).cards@[i as int].id >= id);
                    assert(old(self).cards@[i as int].id != id);
                    if k > i {
                        assert(old(self).cards@[i as int].id < old(self).cards@[k].id);
                    }
                }
            }
        }
        let ghost pre = self.cards@;
        let c = Card { id: id, text: None, photo: photo };
        self.cards.insert(i, c);
        proof {
            pre.insert_ensures(i as int, c);
            assert forall|a: int, b: int|
                #![trigger self.cards@[a], self.cards@[b]]
                0 <= a < b < self.cards@.len() implies self.cards@[a].id < self.cards@[b].id by {
                if b < i {
                    assert(self.cards@[a] == pre[a] && self.cards@[b] == pre[b]);
                } else if b == i {
                    assert(self.cards@[a] == pre[a]);
                    assert(pre[a].id < id);
                } else {
                    assert(self.cards@[b] == pre[b - 1]);
                    assert(pre[b - 1].id >= id) by {
                        assert(pre[i as int].id >= id);
                        if b - 1 > i {
                            assert(pre[i as int].id < pre[b - 1].id);
                        }
                    }
                    assert(pre[b - 1].id != id);
                    if a < i {
                        assert(self.cards@[a] == pre[a]);
                        assert(pre[a].id < id);
                    } else if a == i {
                        assert(self.cards@[a].id == id);
                    } else {
                        assert(self.cards@[a] == pre[a - 1]);
                        assert(pre[a - 1].id < pre[b - 1].id);
                    }
                }
            }
            assert(self.cards@[i as int].id == id);
            assert(self.contains_id(id));
        }
        id
    }

    /// Replace the text of the card at `id`. Empty text and unknown ids are
    /// silent no-ops; in particular empty text never clears existing text.
    pub fn set_card_text(&mut self, id: u128, text: String)
        requires
            old(self).wf(),
        ensures
            set_text_post(*old(self), *final(self), id, text),
    {
        if text.as_str().is_empty() {
            return ;
        }
        match self.find_index(id) {
            Option::None => {},
            Option::Some(i) => {
                let ghost pre = self.cards@;
                let mut c = self.cards.remove(i);
                c.text = Some(text);
                self.cards.insert(i, c);
                proof {
                    pre.remove_ensures(i as int);
                    pre.remove(i as int).insert_ensures(i as int, c);
                    assert(self.cards@ =~= pre.update(i as int, c));
                    assert forall|a: int, b: int|
                        #![trigger self.cards@[a], self.cards@[b]]
                        0 <= a < b < self.cards@.len() implies self.cards@[a].id
                        < self.cards@[b].id by {
                        assert(self.cards@[a].id == pre[a].id);
                        assert(self.cards@[b].id == pre[b].id);
                    }
                }
            },
        }
    }

    /// Remove the card at `id` if it is present; a missing id is a no-op.
    pub fn delete_card(&mut self, id: u128)
        requires
            old(self).wf(),
        ensures
            delete_post(*old(self), *final(self), id),
    {
        match self.find_index(id) {
            Option::None => {},
            Option::Some(i) => {
                let ghost pre = self.cards@;
                self.cards.remove(i);
                proof {
                    pre.remove_ensures(i as int);
                    assert forall|k: int|
                        0 <= k < self.cards@.len() implies #[trigger] self.cards@[k].id != id by {
                        if k < i {
                            assert(self.cards@[k] == pre[k]);
                            assert(pre[k].id < pre[i as int].id);
                        } else {
                            assert(self.cards@[k] == pre[k + 1]);
                            assert(pre[i as int].id < pre[k + 1].id);
                        }
                    }
                    assert forall|a: int, b: int|
                        #![trigger self.cards@[a], self.cards@[b]]
                        0 <= a < b < self.cards@.len() implies self.cards@[a].id
                        < self.cards@[b].id by {
                        if a < i {
                            assert(self.cards@[a] == pre[a]);
                        } else {
                            assert(self.cards@[a] == pre[a + 1]);
                        }
                        if b < i {
                            assert(self.cards@[b] == pre[b]);
                        } else {
                            assert(self.cards@[b] == pre[b + 1]);
                        }
                    }
                }
            },
        }
    }
}

} // verus!
