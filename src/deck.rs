use vstd::prelude::*;

verus! {

/// The number of cards in the deck.
pub const DECK_SIZE: usize = 22;

/// A drawn card is reversed when a uniformly random byte falls below this
/// value: a probability of 16 in 256.
pub const REVERSED_BELOW: u8 = 16;

/// Appended to the name of a reversed card.
pub const REVERSED_SUFFIX: &'static str = " (Reversed)";

/// The name of the card at position `i` of the deck.
pub open spec fn card_name(i: int) -> Seq<char> {
    if i == 0 { "0: The Fool"@ }
    else if i == 1 { "I: Magician"@ }
    else if i == 2 { "II: High Priestess"@ }
    else if i == 3 { "III: Empress"@ }
    else if i == 4 { "IV: Emperor"@ }
    else if i == 5 { "V: Hierophant"@ }
    else if i == 6 { "VI: Lovers"@ }
    else if i == 7 { "VII: Chariot"@ }
    else if i == 8 { "VIII: Strength"@ }
    else if i == 9 { "IX: Hermit"@ }
    else if i == 10 { "X: Wheel of Fortune"@ }
    else if i == 11 { "XI: Justice"@ }
    else if i == 12 { "XII: The Hanged Man"@ }
    else if i == 13 { "XIII: Death"@ }
    else if i == 14 { "XIV: Temperance"@ }
    else if i == 15 { "XV: Devil"@ }
    else if i == 16 { "XVI: The Tower"@ }
    else if i == 17 { "XVII: The Star"@ }
    else if i == 18 { "XVIII: The Moon"@ }
    else if i == 19 { "XIX: The Sun"@ }
    else if i == 20 { "XX: Judgement"@ }
    else { "XXI: The World"@ }
}

/// The length and first four characters of the name at position `i`: no
/// two positions share them.
spec fn card_sig(i: int) -> (int, char, char, char, char) {
    if i == 0 { (11, '0', ':', ' ', 'T') }
    else if i == 1 { (11, 'I', ':', ' ', 'M') }
    else if i == 2 { (18, 'I', 'I', ':', ' ') }
    else if i == 3 { (12, 'I', 'I', 'I', ':') }
    else if i == 4 { (11, 'I', 'V', ':', ' ') }
    else if i == 5 { (13, 'V', ':', ' ', 'H') }
    else if i == 6 { (10, 'V', 'I', ':', ' ') }
    else if i == 7 { (12, 'V', 'I', 'I', ':') }
    else if i == 8 { (14, 'V', 'I', 'I', 'I') }
    else if i == 9 { (10, 'I', 'X', ':', ' ') }
    else if i == 10 { (19, 'X', ':', ' ', 'W') }
    else if i == 11 { (11, 'X', 'I', ':', ' ') }
    else if i == 12 { (19, 'X', 'I', 'I', ':') }
    else if i == 13 { (11, 'X', 'I', 'I', 'I') }
    else if i == 14 { (15, 'X', 'I', 'V', ':') }
    else if i == 15 { (9, 'X', 'V', ':', ' ') }
    else if i == 16 { (14, 'X', 'V', 'I', ':') }
    else if i == 17 { (14, 'X', 'V', 'I', 'I') }
    else if i == 18 { (15, 'X', 'V', 'I', 'I') }
    else if i == 19 { (12, 'X', 'I', 'X', ':') }
    else if i == 20 { (13, 'X', 'X', ':', ' ') }
    else { (14, 'X', 'X', 'I', ':') }
}

proof fn lemma_card_sig(i: int)
    requires
        0 <= i < DECK_SIZE,
    ensures
        card_name(i).len() >= 4,
        (card_name(i).len() as int, card_name(i)[0], card_name(i)[1], card_name(i)[2], card_name(i)[3])
            == card_sig(i),
{
    reveal_strlit("0: The Fool");
    reveal_strlit("I: Magician");
    reveal_strlit("II: High Priestess");
    reveal_strlit("III: Empress");
    reveal_strlit("IV: Emperor");
    reveal_strlit("V: Hierophant");
    reveal_strlit("VI: Lovers");
    reveal_strlit("VII: Chariot");
    reveal_strlit("VIII: Strength");
    reveal_strlit("IX: Hermit");
    reveal_strlit("X: Wheel of Fortune");
    reveal_strlit("XI: Justice");
    reveal_strlit("XII: The Hanged Man");
    reveal_strlit("XIII: Death");
    reveal_strlit("XIV: Temperance");
    reveal_strlit("XV: Devil");
    reveal_strlit("XVI: The Tower");
    reveal_strlit("XVII: The Star");
    reveal_strlit("XVIII: The Moon");
    reveal_strlit("XIX: The Sun");
    reveal_strlit("XX: Judgement");
    reveal_strlit("XXI: The World");
}

/// The cards at two different positions have different names.
pub proof fn lemma_card_names_distinct(i: int, j: int)
    requires
        0 <= i < DECK_SIZE,
        0 <= j < DECK_SIZE,
        i != j,
    ensures
        card_name(i) != card_name(j),
{
    lemma_card_sig(i);
    lemma_card_sig(j);
}

/// The name under which a card drawn from position `i` with the random byte
/// `roll` is looked up and reported.
pub open spec fn card_label_spec(i: int, roll: u8) -> Seq<char> {
    if roll < REVERSED_BELOW {
        card_name(i) + REVERSED_SUFFIX@
    } else {
        card_name(i)
    }
}

/// The name of the card at position `i` of the deck.
pub fn card(i: usize) -> (r: &'static str)
    requires
        i < DECK_SIZE,
    ensures
        r@ == card_name(i as int),
{
    if i == 0 { "0: The Fool" }
    else if i == 1 { "I: Magician" }
    else if i == 2 { "II: High Priestess" }
    else if i == 3 { "III: Empress" }
    else if i == 4 { "IV: Emperor" }
    else if i == 5 { "V: Hierophant" }
    else if i == 6 { "VI: Lovers" }
    else if i == 7 { "VII: Chariot" }
    else if i == 8 { "VIII: Strength" }
    else if i == 9 { "IX: Hermit" }
    else if i == 10 { "X: Wheel of Fortune" }
    else if i == 11 { "XI: Justice" }
    else if i == 12 { "XII: The Hanged Man" }
    else if i == 13 { "XIII: Death" }
    else if i == 14 { "XIV: Temperance" }
    else if i == 15 { "XV: Devil" }
    else if i == 16 { "XVI: The Tower" }
    else if i == 17 { "XVII: The Star" }
    else if i == 18 { "XVIII: The Moon" }
    else if i == 19 { "XIX: The Sun" }
    else if i == 20 { "XX: Judgement" }
    else { "XXI: The World" }
}

/// The name of the card at position `index`, with the reversal suffix
/// where `roll` is below `REVERSED_BELOW`.
pub fn card_label(index: usize, roll: u8) -> (r: String)
    requires
        index < DECK_SIZE,
    ensures
        r@ == card_label_spec(index as int, roll),
{
    let name = String::from_str(card(index));
    if roll < REVERSED_BELOW {
        name.concat(REVERSED_SUFFIX)
    } else {
        name
    }
}

/// Relies on rand's `Rng::random_range` over `0..n` (what slice `choose`
/// does): a value below `n`; it panics on an empty range.
#[verifier::external_body]
pub(crate) fn random_below(n: usize) -> (r: usize)
    requires
        n > 0,
    ensures
        r < n,
{
    rand::Rng::random_range(&mut rand::rng(), 0..n)
}

/// Relies on `rand::random::<u8>`: any byte.
#[verifier::external_body]
pub(crate) fn random_byte() -> (r: u8) {
    rand::random::<u8>()
}

/// Relies on `rand::seq::index::sample`: exactly `amount` distinct indices
/// below `length`; it panics where `amount > length`.
#[verifier::external_body]
pub(crate) fn sample_indices(length: usize, amount: usize) -> (r: Vec<usize>)
    requires
        amount <= length,
    ensures
        r@.len() == amount,
        forall|k: int| 0 <= k < r@.len() ==> r@[k] < length,
        forall|j: int, k: int| 0 <= j < k < r@.len() ==> r@[j] != r@[k],
{
    rand::seq::index::sample(&mut rand::rng(), length, amount).into_vec()
}

} // verus!
