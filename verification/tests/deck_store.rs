use match_game::deck::Deck;

#[test]
fn add_and_delete_sizes() {
    let mut d = Deck::new();
    assert_eq!(d.len(), 0);
    let a = d.add_card(None);
    let b = d.add_card(None);
    let c = d.add_card(Some("data:image;base64,xyz".to_string()));
    assert_eq!(d.len(), 3);

    d.delete_card(b);
    assert_eq!(d.len(), 2);
    // deleting the same id again is a no-op
    d.delete_card(b);
    assert_eq!(d.len(), 2);
    // deleting an id that was never present is a no-op
    let absent = a.wrapping_add(1).wrapping_add(c);
    if absent != a && absent != c {
        d.delete_card(absent);
        assert_eq!(d.len(), 2);
    }
    d.delete_card(a);
    d.delete_card(c);
    assert_eq!(d.len(), 0);
}

#[test]
fn listing_is_sorted_by_id() {
    let mut d = Deck::new();
    let mut ids = vec![d.add_card(None), d.add_card(None), d.add_card(None)];
    ids.sort();
    let listed: Vec<u128> = d.list_cards().iter().map(|c| c.id).collect();
    assert_eq!(listed, ids);
}

#[test]
fn empty_text_is_noop() {
    let mut d = Deck::new();
    let id = d.add_card(None);
    // empty text onto a card with no text: still no text
    d.set_card_text(id, String::new());
    assert!(d.list_cards()[0].text.is_none());

    d.set_card_text(id, "cat".to_string());
    assert_eq!(d.list_cards()[0].text.as_deref(), Some("cat"));

    // empty text never clears existing text
    d.set_card_text(id, String::new());
    assert_eq!(d.list_cards()[0].text.as_deref(), Some("cat"));
}

#[test]
fn set_text_unknown_id_is_noop() {
    let mut d = Deck::new();
    let id = d.add_card(None);
    let absent = id.wrapping_add(1);
    d.set_card_text(absent, "dog".to_string());
    assert_eq!(d.len(), 1);
    assert!(d.list_cards()[0].text.is_none());
}

#[test]
fn new_cards_have_fresh_photo_and_no_text() {
    let mut d = Deck::new();
    let empty_id = d.add_card(None);
    let photo_id = d.add_card(Some("data:image/png;base64,abc".to_string()));
    assert_ne!(empty_id, photo_id);
    for c in d.list_cards() {
        assert!(c.text.is_none());
        if c.id == empty_id {
            assert!(c.photo.is_none());
        } else {
            assert_eq!(c.photo.as_deref(), Some("data:image/png;base64,abc"));
        }
    }
}
