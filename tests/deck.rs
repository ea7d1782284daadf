use tarot::deck::{card, card_label, DECK_SIZE, REVERSED_BELOW};
use tarot::tarot::update_affinity;
use tarot::{Tarot, TarotError};

fn full_deck_text() -> String {
    let mut text = String::new();
    for i in 0..DECK_SIZE {
        text.push_str(&format!("{},{}\n", card(i), i));
        text.push_str(&format!("{} (Reversed),{}\n", card(i), 100 + i));
    }
    text
}

#[test]
fn example_card_is_drawable() {
    let tarot = Tarot::new("The Fool,5\nbadline\nMagician,notanumber\nMagician,10\n0: The Fool,5");
    assert_eq!(tarot.get_affinity("The Fool"), Ok(5));
    assert_eq!(tarot.get_affinity("Magician"), Ok(10));
    assert_eq!(tarot.get_affinity("badline"), Err(TarotError::NotFound("badline".to_string())));
    assert_eq!(tarot.draw_card(0, 255), Ok(("0: The Fool".to_string(), 5)));
}

#[test]
fn unknown_name_not_found() {
    let tarot = Tarot::new("a,1");
    assert_eq!(tarot.get_affinity("Nobody"), Err(TarotError::NotFound("Nobody".to_string())));
}

#[test]
fn reversal_threshold() {
    assert_eq!(card_label(0, 0), "0: The Fool (Reversed)");
    assert_eq!(card_label(0, REVERSED_BELOW - 1), "0: The Fool (Reversed)");
    assert_eq!(card_label(0, REVERSED_BELOW), "0: The Fool");
    assert_eq!(card_label(21, 200), "XXI: The World");
}

#[test]
fn reversed_card_looked_up_by_suffixed_name() {
    let tarot = Tarot::new(&full_deck_text());
    assert_eq!(tarot.draw_card(3, 0), Ok(("III: Empress (Reversed)".to_string(), 103)));
    assert_eq!(tarot.draw_card(3, 17), Ok(("III: Empress".to_string(), 3)));
}

#[test]
fn draw_many_whole_deck() {
    let tarot = Tarot::new(&full_deck_text());
    let cards = tarot.draw_many(22).unwrap();
    assert_eq!(cards.len(), 22);
    let mut names: Vec<String> = cards.iter().map(|c| c.0.clone()).collect();
    names.sort();
    names.dedup();
    assert_eq!(names.len(), 22);
}

#[test]
fn draw_many_too_many() {
    let tarot = Tarot::new(&full_deck_text());
    assert_eq!(tarot.draw_many(23), Err(TarotError::TooMany(23)));
    assert_eq!(tarot.draw_many(u16::MAX), Err(TarotError::TooMany(u16::MAX)));
}

#[test]
fn draw_many_zero_is_empty() {
    let tarot = Tarot::new("");
    assert_eq!(tarot.draw_many(0), Ok(Vec::new()));
}

#[test]
fn draw_many_fails_on_missing_score() {
    let tarot = Tarot::new("");
    assert!(matches!(tarot.draw_many(3), Err(TarotError::NotFound(_))));
}

#[test]
fn draw_cards_in_order() {
    let tarot = Tarot::new(&full_deck_text());
    let cards = tarot.draw_cards(&vec![2, 0]).unwrap();
    assert_eq!(cards, vec![("II: High Priestess".to_string(), 2), ("0: The Fool".to_string(), 0)]);
}

#[test]
fn single_draw_has_a_score() {
    let tarot = Tarot::new(&full_deck_text());
    let (name, score) = tarot.draw().unwrap();
    let base = name.trim_end_matches(" (Reversed)");
    let i = (0..DECK_SIZE).find(|&i| card(i) == base).unwrap();
    if name.ends_with(" (Reversed)") {
        assert_eq!(score, 100 + i as i32);
    } else {
        assert_eq!(score, i as i32);
    }
}

#[test]
fn reload_replaces_whole_table() {
    let mut tarot = Tarot::new("a,1\nb,2");
    update_affinity("b,3\nc,4", &mut tarot);
    assert_eq!(tarot.get_affinity("a"), Err(TarotError::NotFound("a".to_string())));
    assert_eq!(tarot.get_affinity("b"), Ok(3));
    assert_eq!(tarot.get_affinity("c"), Ok(4));
}

#[test]
fn reload_with_nothing_valid_empties_table() {
    let mut tarot = Tarot::new("a,1");
    update_affinity("garbage", &mut tarot);
    assert_eq!(tarot.get_affinity("a"), Err(TarotError::NotFound("a".to_string())));
}

#[test]
fn unreachable_table_gives_neutral_score() {
    let tarot = Tarot::unreachable();
    assert_eq!(tarot.get_affinity("x"), Ok(0));
    assert_eq!(tarot.draw_card(1, 0), Ok(("I: Magician (Reversed)".to_string(), 0)));
    let cards = tarot.draw_many(22).unwrap();
    assert_eq!(cards.len(), 22);
    assert!(cards.iter().all(|c| c.1 == 0));
    assert_eq!(tarot.draw().unwrap().1, 0);
}

#[test]
fn draw_cards_stops_at_first_missing() {
    let tarot = Tarot::new("0: The Fool,1");
    assert_eq!(
        tarot.draw_cards(&vec![0, 5, 6]),
        Err(TarotError::NotFound("V: Hierophant".to_string()))
    );
}

#[test]
fn draw_card_without_score_fails() {
    let tarot = Tarot::new("0: The Fool,1");
    assert_eq!(
        tarot.draw_card(0, 0),
        Err(TarotError::NotFound("0: The Fool (Reversed)".to_string()))
    );
}
