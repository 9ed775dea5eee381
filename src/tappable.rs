use vstd::prelude::*;
use crate::card::{Card, CardFragmentKind, FragmentMap, SerializableFragment, TappableFragment};

verus! {

/// A card without a tappable fragment is always untapped.
pub open spec fn spec_tapped(c: Card) -> bool {
    match c.fragments.tappable {
        Some(tf) => tf.tapped,
        None => false,
    }
}

/// `c` with its tappable fragment set to `v`; unchanged without one.
pub open spec fn with_tapped(c: Card, v: bool) -> Card {
    Card {
        name: c.name,
        card_types: c.card_types,
        cost: c.cost,
        fragments: FragmentMap {
            creature: c.fragments.creature,
            tappable: match c.fragments.tappable {
                Some(_) => Some(TappableFragment { tapped: v }),
                None => None,
            },
        },
    }
}

pub fn is_tappable(card: &Card) -> (r: bool)
    ensures
        r == card.fragments.tappable.is_some(),
{
    card.fragments.contains_key(CardFragmentKind::Tappable)
}

pub fn is_tapped(card: &Card) -> (r: bool)
    ensures
        r == spec_tapped(*card),
{
    match SerializableFragment::from_fragment(&card.fragments, CardFragmentKind::Tappable) {
        Some(SerializableFragment::Tappable(tf)) => tf.tapped,
        _ => false,
    }
}

/// Set the tapped state; a no-op when the card has no tappable fragment.
pub fn set_tapped(card: &mut Card, value: bool)
    ensures
        *final(card) == with_tapped(*old(card), value),
{
    match SerializableFragment::from_fragment(&card.fragments, CardFragmentKind::Tappable) {
        Some(SerializableFragment::Tappable(_)) => {
            let f = SerializableFragment::Tappable(TappableFragment { tapped: value });
            f.to_fragment(&mut card.fragments);
            assert(card.fragments.get(CardFragmentKind::Creature) == old(card).fragments.get(
                CardFragmentKind::Creature,
            ));
            assert(card.fragments.get(CardFragmentKind::Tappable) == Some(f));
        },
        _ => {},
    }
}

} // verus!
