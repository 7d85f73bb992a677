use match_game::engine::{slot_shown, update, CardState, Model, Msg, NewCardType, PlayedCard};
use match_game::deck::Card;

fn deck_with_texts(texts: &[&str]) -> Model {
    let mut m = Model::new_session();
    for t in texts {
        let id = m.deck.add_card(None);
        m.deck.set_card_text(id, (*t).to_string());
    }
    m
}

fn revealed(m: &Model, i: usize) -> bool {
    m.board[i].displayed == CardState::FaceUp
}

#[test]
fn start_needs_two_eligible_cards() {
    // two cards in the deck, but only one has content: still deck editing
    let mut m = Model::new_session();
    m.deck.add_card(None); // no text, no photo: not eligible
    let id = m.deck.add_card(None);
    m.deck.set_card_text(id, "cat".to_string());
    m.start_game();
    assert!(!m.game_started);
    assert!(m.board.is_empty());
    assert_eq!(m.deck.len(), 2);

    // an empty deck and a single-card deck stay in deck editing too
    let mut empty = Model::new_session();
    empty.start_game();
    assert!(!empty.game_started);
    let mut one = deck_with_texts(&["cat"]);
    one.start_game();
    assert!(!one.game_started);
}

#[test]
fn board_has_two_slots_per_eligible_card() {
    let mut m = deck_with_texts(&["a", "b", "c"]);
    m.deck.add_card(None); // ineligible: contributes no slots
    m.start_game();
    assert!(m.game_started);
    assert_eq!(m.board.len(), 6);
    let ids: Vec<u128> = m.deck.list_cards().iter().map(|c| c.id).collect();
    for id in ids {
        let n = m.board.iter().filter(|pc| pc.card.id == id).count();
        let eligible = m
            .deck
            .list_cards()
            .iter()
            .any(|c| c.id == id && (c.text.is_some() || c.photo.is_some()));
        assert_eq!(n, if eligible { 2 } else { 0 });
    }
    for pc in &m.board {
        assert!(pc.displayed == CardState::FaceDown && !pc.matched);
    }
    // the deck itself is left untouched by starting
    assert_eq!(m.deck.len(), 4);
}

#[test]
fn shuffle_is_a_permutation_and_varies() {
    let mut m = deck_with_texts(&["a", "b", "c", "d"]);
    let mut orders: Vec<Vec<u128>> = Vec::new();
    for _ in 0..20 {
        m.start_game();
        assert_eq!(m.board.len(), 8);
        let order: Vec<u128> = m.board.iter().map(|pc| pc.card.id).collect();
        let mut sorted = order.clone();
        sorted.sort();
        let mut expected: Vec<u128> = m.deck.list_cards().iter().map(|c| c.id).collect();
        expected.extend(m.deck.list_cards().iter().map(|c| c.id));
        expected.sort();
        assert_eq!(sorted, expected);
        orders.push(order);
    }
    // a fresh permutation is drawn each time: 20 identical draws out of
    // 8!-many orderings would be astonishing
    assert!(orders.iter().any(|o| o != &orders[0]));
}

#[test]
fn guess_protocol_scenario() {
    let mut m = deck_with_texts(&["cat", "dog"]);
    m.start_game();
    assert_eq!(m.board.len(), 4);
    let a = m
        .deck
        .list_cards()
        .iter()
        .find(|c| c.text.as_deref() == Some("cat"))
        .unwrap()
        .id;
    let a1 = m.board.iter().position(|pc| pc.card.id == a).unwrap();
    let a2 = m.board.iter().rposition(|pc| pc.card.id == a).unwrap();
    let b1 = m.board.iter().position(|pc| pc.card.id != a).unwrap();
    assert_ne!(a1, a2);

    // first guess: slot a1 alone is revealed, pending is card A
    m.guess(a1);
    assert!(revealed(&m, a1));
    assert_eq!(m.board.iter().filter(|pc| pc.displayed == CardState::FaceUp).count(), 1);
    assert!(!m.needs_reset);

    // second guess on a B slot: mismatch shown, both up, none matched
    m.guess(b1);
    assert!(revealed(&m, a1) && revealed(&m, b1));
    assert!(m.needs_reset);
    assert!(m.board.iter().all(|pc| !pc.matched));

    // any further click acknowledges: everything flips back down
    m.guess(a2);
    assert!(!m.needs_reset);
    assert!(m.board.iter().all(|pc| pc.displayed == CardState::FaceDown));

    // now match the two A slots
    m.guess(a1);
    m.guess(a2);
    assert!(m.board[a1].matched && m.board[a2].matched);
    assert!(revealed(&m, a1) && revealed(&m, a2));
    assert!(!m.board[b1].matched);
    assert!(!m.needs_reset);
}

#[test]
fn matched_slots_never_change_again() {
    let mut m = deck_with_texts(&["cat", "dog"]);
    m.start_game();
    let a = m.board[0].card.id;
    let twin = (1..4).find(|&i| m.board[i].card.id == a).unwrap();
    m.guess(0);
    m.guess(twin);
    assert!(m.board[0].matched && m.board[twin].matched);

    // hammer the engine with every index, twice around
    for i in (0..4).chain(0..4) {
        m.guess(i);
        assert!(m.board[0].matched && m.board[twin].matched);
        assert!(m.board[0].displayed == CardState::FaceUp);
        assert!(m.board[twin].displayed == CardState::FaceUp);
    }
}

#[test]
fn exit_clears_board_and_deck() {
    let mut m = deck_with_texts(&["cat", "dog"]);
    m.start_game();
    m.guess(0);
    m.exit_game();
    assert!(!m.game_started);
    assert!(m.board.is_empty());
    assert_eq!(m.deck.len(), 0);
    assert!(m.last.is_none());
    assert!(!m.needs_reset);
}

#[test]
fn guessing_without_a_board_is_a_noop() {
    let mut m = Model::new_session();
    m.guess(0);
    assert!(!m.game_started && m.board.is_empty() && m.last.is_none());

    let mut playing = deck_with_texts(&["cat", "dog"]);
    playing.start_game();
    // out-of-range index: nothing changes
    playing.guess(99);
    assert!(playing.board.iter().all(|pc| pc.displayed == CardState::FaceDown));
    assert!(playing.last.is_none());
}

#[test]
fn default_session_is_empty_and_editing() {
    let m = Model::default();
    assert!(!m.game_started);
    assert_eq!(m.deck.len(), 0);
    assert!(m.board.is_empty());
    assert!(m.last.is_none());
    assert!(!m.needs_reset);
}

#[test]
fn slots_show_when_revealed_or_matched() {
    let card = Card { id: 7, text: Some("cat".to_string()), photo: None };
    let mut pc = PlayedCard { card, displayed: CardState::FaceDown, matched: false };
    assert!(!slot_shown(&pc));
    pc.displayed = CardState::FaceUp;
    assert!(slot_shown(&pc));
    pc.displayed = CardState::FaceDown;
    pc.matched = true;
    assert!(slot_shown(&pc));
}

#[test]
fn update_dispatches_every_message() {
    let mut m = Model::new_session();
    update(Msg::NewCard(NewCardType::Empty), &mut m);
    update(
        Msg::NewCard(NewCardType::OnePhoto("data:image/gif;base64,R0lG".to_string())),
        &mut m,
    );
    assert_eq!(m.deck.len(), 2);
    let photo_id = m
        .deck
        .list_cards()
        .iter()
        .find(|c| c.photo.is_some())
        .unwrap()
        .id;
    let empty_id = m
        .deck
        .list_cards()
        .iter()
        .find(|c| c.photo.is_none())
        .unwrap()
        .id;
    update(Msg::UpdateCardText { id: empty_id, text: "cat".to_string() }, &mut m);
    update(Msg::StartGame, &mut m);
    assert!(m.game_started);
    assert_eq!(m.board.len(), 4);
    update(Msg::GuessCard(0), &mut m);
    assert!(m.board[0].displayed == CardState::FaceUp);
    update(Msg::ResetClick, &mut m);
    assert!(m.board.iter().all(|pc| pc.displayed == CardState::FaceDown));
    update(Msg::ExitGame, &mut m);
    assert!(!m.game_started && m.deck.len() == 0);
    // deck messages still work back in editing state
    update(Msg::NewCard(NewCardType::Empty), &mut m);
    assert_eq!(m.deck.len(), 1);
    let id = m.deck.list_cards()[0].id;
    update(Msg::DeleteCard(id), &mut m);
    assert_eq!(m.deck.len(), 0);
    let _ = photo_id;
}
