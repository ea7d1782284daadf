use vstd::prelude::*;
use crate::deck::{
    card, card_label, card_label_spec, card_name, lemma_card_names_distinct, random_below,
    random_byte, sample_indices, DECK_SIZE,
};
use crate::format::{parse_affinity, table_of};
use crate::table::AffinityTable;

verus! {

/// What a caller of the deck can be refused.
#[derive(Debug, PartialEq, Eq)]
pub enum TarotError {
    /// More cards were asked for than the deck holds.
    TooMany(u16),
    /// The table holds no score for this card name.
    NotFound(String),
}

/// `e` reports that no score is known for `name`.
pub open spec fn is_not_found(e: TarotError, name: Seq<char>) -> bool {
    match e {
        TarotError::NotFound(n) => n@ == name,
        _ => false,
    }
}

/// The score that a deck with table `d` gives `name`: the neutral 0 where
/// the table cannot be reached (`None`), else the stored score, if any.
pub open spec fn score_in(d: Option<Map<Seq<char>, i32>>, name: Seq<char>) -> Option<i32> {
    match d {
        None => Some(0),
        Some(m) => if m.contains_key(name) { Some(m[name]) } else { None },
    }
}

/// `r` is what drawing the card named `name` gives from a deck with table
/// `d`: the name with its score, or not found where it has none.
pub open spec fn card_outcome(
    d: Option<Map<Seq<char>, i32>>,
    name: Seq<char>,
    r: Result<(String, i32), TarotError>,
) -> bool {
    match score_in(d, name) {
        Some(v) => r matches Ok(c) && c.0@ == name && c.1 == v,
        None => r matches Err(e) && is_not_found(e, name),
    }
}

/// `r` is what drawing the cards at positions `idx`, in order, gives from a
/// deck with table `d`: every card with its score where all have one, else
/// not found for the first that has none.
pub open spec fn cards_outcome(
    d: Option<Map<Seq<char>, i32>>,
    idx: Seq<usize>,
    r: Result<Vec<(String, i32)>, TarotError>,
) -> bool {
    match r {
        Ok(v) => v@.len() == idx.len() && forall|k: int|
            0 <= k < idx.len() ==> {
                &&& (#[trigger] v@[k]).0@ == card_name(idx[k] as int)
                &&& score_in(d, card_name(idx[k] as int)) == Some(v@[k].1)
            },
        Err(e) => exists|k: int|
            0 <= k < idx.len() && score_in(d, #[trigger] card_name(idx[k] as int)) is None
                && is_not_found(e, card_name(idx[k] as int)) && forall|j: int|
                0 <= j < k ==> score_in(d, #[trigger] card_name(idx[j] as int)) is Some,
    }
}

/// `idx` holds pairwise distinct deck positions.
pub open spec fn distinct_positions(idx: Seq<usize>) -> bool {
    &&& forall|k: int| 0 <= k < idx.len() ==> idx[k] < DECK_SIZE
    &&& forall|j: int, k: int| 0 <= j < k < idx.len() ==> idx[j] != idx[k]
}

/// A deck of cards with the table of affinity scores that its lookups use.
pub struct Tarot {
    table: Option<AffinityTable>,
}

impl View for Tarot {
    type V = Option<Map<Seq<char>, i32>>;

    /// The score table, or `None` for a deck whose table cannot be reached.
    closed spec fn view(&self) -> Option<Map<Seq<char>, i32>> {
        match self.table {
            Some(t) => Some(t@),
            None => None,
        }
    }
}

/// Replaces the whole table of `deck`, in one step, by the one that `data`
/// describes.
pub fn update_affinity(data: &str, deck: &mut Tarot)
    ensures
        final(deck)@ == Some(table_of(data@)),
{
    deck.table = Some(parse_affinity(data));
}

impl Tarot {
    /// A deck whose table is the one that `affinity_data` describes.
    pub fn new(affinity_data: &str) -> (t: Tarot)
        ensures
            t@ == Some(table_of(affinity_data@)),
    {
        Tarot { table: Some(parse_affinity(affinity_data)) }
    }

    /// A deck that stands for a table that cannot be reached: every lookup
    /// gives the neutral score 0, so that draws stay available.
    pub fn unreachable() -> (t: Tarot)
        ensures
            t@ is None,
    {
        Tarot { table: None }
    }

    /// The score of `card`: the stored one, not found where the table holds
    /// none, and 0 where the table cannot be reached.
    pub fn get_affinity(&self, card: &str) -> (r: Result<i32, TarotError>)
        ensures
            match score_in(self@, card@) {
                Some(v) => r == Ok::<i32, TarotError>(v),
                None => r matches Err(e) && is_not_found(e, card@),
            },
    {
        match &self.table {
            None => Ok(0),
            Some(t) => match t.get(card) {
                Some(v) => Ok(v),
                None => Err(TarotError::NotFound(String::from_str(card))),
            },
        }
    }

    /// The card named `name` with its score.
    fn draw_named(&self, name: String) -> (r: Result<(String, i32), TarotError>)
        ensures
            card_outcome(self@, name@, r),
    {
        match self.get_affinity(name.as_str()) {
            Ok(score) => Ok((name, score)),
            Err(e) => Err(e),
        }
    }

    /// The card at position `index`, reversed where `roll` is below the
    /// reversal threshold, with its score.
    pub fn draw_card(&self, index: usize, roll: u8) -> (r: Result<(String, i32), TarotError>)
        requires
            index < DECK_SIZE,
        ensures
            card_outcome(self@, card_label_spec(index as int, roll), r),
    {
        self.draw_named(card_label(index, roll))
    }

    /// One card drawn uniformly from the deck, sometimes reversed, with its
    /// score.
    pub fn draw(&self) -> (r: Result<(String, i32), TarotError>)
        ensures
            exists|i: int, roll: u8|
                0 <= i < DECK_SIZE && card_outcome(self@, #[trigger] card_label_spec(i, roll), r),
    {
        let index = random_below(DECK_SIZE);
        let roll = random_byte();
        self.draw_card(index, roll)
    }

    /// The cards at positions `indices`, in that order, each with its score;
    /// the first card without a score ends the draw with its error.
    pub fn draw_cards(&self, indices: &Vec<usize>) -> (r: Result<Vec<(String, i32)>, TarotError>)
        requires
            forall|k: int| 0 <= k < indices@.len() ==> indices@[k] < DECK_SIZE,
        ensures
            cards_outcome(self@, indices@, r),
    {
        let mut v: Vec<(String, i32)> = Vec::new();
        let mut k: usize = 0;
        while k < indices.len()
            invariant
                k <= indices@.len(),
                forall|j: int| 0 <= j < indices@.len() ==> indices@[j] < DECK_SIZE,
                v@.len() == k,
                forall|j: int|
                    0 <= j < k ==> {
                        &&& (#[trigger] v@[j]).0@ == card_name(indices@[j] as int)
                        &&& score_in(self@, card_name(indices@[j] as int)) == Some(v@[j].1)
                    },
            decreases indices@.len() - k,
        {
            match self.draw_named(String::from_str(card(indices[k]))) {
                Ok(entry) => v.push(entry),
                Err(e) => {
                    assert forall|j: int| 0 <= j < k implies score_in(
                        self@,
                        #[trigger] card_name(indices@[j] as int),
                    ) is Some by {
                        assert(score_in(self@, card_name(indices@[j] as int)) == Some(v@[j].1));
                    }
                    assert(score_in(self@, card_name(indices@[k as int] as int)) is None);
                    return Err(e);
                },
            }
            k = k + 1;
        }
        Ok(v)
    }

    /// `num` distinct cards drawn from the deck, each with its score; more
    /// than the deck holds is refused.
    pub fn draw_many(&self, num: u16) -> (r: Result<Vec<(String, i32)>, TarotError>)
        ensures
            num as usize > DECK_SIZE ==> r == Err::<Vec<(String, i32)>, TarotError>(
                TarotError::TooMany(num),
            ),
            num as usize <= DECK_SIZE ==> exists|idx: Seq<usize>|
                idx.len() == num && #[trigger] distinct_positions(idx) && cards_outcome(
                    self@,
                    idx,
                    r,
                ),
            r matches Ok(v) ==> forall|j: int, k: int|
                0 <= j < k < v@.len() ==> v@[j].0@ != v@[k].0@,
    {
        if num as usize > DECK_SIZE {
            return Err(TarotError::TooMany(num));
        }
        let indices = sample_indices(DECK_SIZE, num as usize);
        let r = self.draw_cards(&indices);
        assert(distinct_positions(indices@));
        if let Ok(v) = &r {
            assert forall|j: int, k: int| 0 <= j < k < v@.len() implies v@[j].0@ != v@[k].0@ by {
                lemma_card_names_distinct(indices@[j] as int, indices@[k] as int);
            }
        }
        r
    }
}

/// Drawing every card of the deck succeeds where each card has a score:
/// the draw holds all the cards, each with its stored score.
pub proof fn lemma_full_draw_succeeds(d: Option<Map<Seq<char>, i32>>, idx: Seq<usize>, r: Result<Vec<(String, i32)>, TarotError>)
    requires
        forall|i: int| 0 <= i < DECK_SIZE ==> score_in(d, #[trigger] card_name(i)) is Some,
        distinct_positions(idx),
        cards_outcome(d, idx, r),
    ensures
        r is Ok,
{
    if let Err(e) = r {
        let k = choose|k: int|
            0 <= k < idx.len() && score_in(d, #[trigger] card_name(idx[k] as int)) is None
                && is_not_found(e, card_name(idx[k] as int)) && forall|j: int|
                0 <= j < k ==> score_in(d, #[trigger] card_name(idx[j] as int)) is Some;
        assert(score_in(d, card_name(idx[k] as int)) is Some);
    }
}

} // verus!
