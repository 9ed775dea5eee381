use vstd::prelude::*;

verus! {

/// A type tag a card can carry.
#[derive(Clone, Copy, Debug, PartialEq, Eq, Hash, Structural)]
pub enum CardType {
    Land,
    Creature,
}

/// The set of type tags of a card, one membership flag per tag.
#[derive(Clone, Copy, Debug, PartialEq, Eq, Structural)]
pub struct TypeSet {
    pub land: bool,
    pub creature: bool,
}

impl TypeSet {
    pub open spec fn has(self, t: CardType) -> bool {
        match t {
            CardType::Land => self.land,
            CardType::Creature => self.creature,
        }
    }

    pub open spec fn with(self, t: CardType) -> TypeSet {
        match t {
            CardType::Land => TypeSet { land: true, creature: self.creature },
            CardType::Creature => TypeSet { land: self.land, creature: true },
        }
    }

    pub open spec fn without(self, t: CardType) -> TypeSet {
        match t {
            CardType::Land => TypeSet { land: false, creature: self.creature },
            CardType::Creature => TypeSet { land: self.land, creature: false },
        }
    }

    pub fn contains(&self, t: CardType) -> (r: bool)
        ensures
            r == self.has(t),
    {
        match t {
            CardType::Land => self.land,
            CardType::Creature => self.creature,
        }
    }

    pub fn insert(&mut self, t: CardType)
        ensures
            *final(self) == old(self).with(t),
            forall|u: CardType| final(self).has(u) == (u == t || old(self).has(u)),
    {
        match t {
            CardType::Land => { self.land = true; },
            CardType::Creature => { self.creature = true; },
        }
    }

    pub fn remove(&mut self, t: CardType)
        ensures
            *final(self) == old(self).without(t),
            forall|u: CardType| final(self).has(u) == (u != t && old(self).has(u)),
    {
        match t {
            CardType::Land => { self.land = false; },
            CardType::Creature => { self.creature = false; },
        }
    }
}

/// Power and toughness of a creature.
#[derive(Clone, Copy, Debug, PartialEq, Eq, Structural)]
pub struct CreatureStats {
    pub power: u8,
    pub toughness: u8,
}

/// The capability kinds a fragment can provide; the key of a card's fragment map.
#[derive(Clone, Copy, Debug, PartialEq, Eq, Hash, Structural)]
pub enum CardFragmentKind {
    Creature,
    Tappable,
}

/// A capability record that can be attached to a card.
pub trait Fragment {
    spec fn spec_kind(&self) -> CardFragmentKind;

    /// The capability kind under which this fragment is filed.
    fn kind(&self) -> (r: CardFragmentKind)
        ensures
            r == self.spec_kind(),
    ;
}

/// Creature stats together with summoning sickness.
#[derive(Clone, Copy, Debug, PartialEq, Eq, Structural)]
pub struct CreatureFragment {
    pub stats: CreatureStats,
    pub summoning_sickness: bool,
}

/// Tapped / untapped state.
#[derive(Clone, Copy, Debug, PartialEq, Eq, Structural)]
pub struct TappableFragment {
    pub tapped: bool,
}

impl Fragment for CreatureFragment {
    open spec fn spec_kind(&self) -> CardFragmentKind {
        CardFragmentKind::Creature
    }

    fn kind(&self) -> (r: CardFragmentKind) {
        CardFragmentKind::Creature
    }
}

impl Fragment for TappableFragment {
    open spec fn spec_kind(&self) -> CardFragmentKind {
        CardFragmentKind::Tappable
    }

    fn kind(&self) -> (r: CardFragmentKind) {
        CardFragmentKind::Tappable
    }
}

/// A fragment of any kind, as a tagged union.
#[derive(Clone, Copy, Debug, PartialEq, Eq, Structural)]
pub enum SerializableFragment {
    Creature(CreatureFragment),
    Tappable(TappableFragment),
}

impl Fragment for SerializableFragment {
    open spec fn spec_kind(&self) -> CardFragmentKind {
        match self {
            SerializableFragment::Creature(_) => CardFragmentKind::Creature,
            SerializableFragment::Tappable(_) => CardFragmentKind::Tappable,
        }
    }

    fn kind(&self) -> (r: CardFragmentKind) {
        match self {
            SerializableFragment::Creature(cf) => cf.kind(),
            SerializableFragment::Tappable(tf) => tf.kind(),
        }
    }
}

/// The fragments attached to a card: at most one per capability kind.
#[derive(Clone, Copy, Debug, PartialEq, Eq, Structural)]
pub struct FragmentMap {
    pub creature: Option<CreatureFragment>,
    pub tappable: Option<TappableFragment>,
}

impl FragmentMap {
    /// The fragment filed under `kind`, if any.
    pub open spec fn get(self, kind: CardFragmentKind) -> Option<SerializableFragment> {
        match kind {
            CardFragmentKind::Creature => match self.creature {
                Some(cf) => Some(SerializableFragment::Creature(cf)),
                None => None,
            },
            CardFragmentKind::Tappable => match self.tappable {
                Some(tf) => Some(SerializableFragment::Tappable(tf)),
                None => None,
            },
        }
    }

    pub fn contains_key(&self, kind: CardFragmentKind) -> (r: bool)
        ensures
            r == self.get(kind).is_some(),
    {
        match kind {
            CardFragmentKind::Creature => self.creature.is_some(),
            CardFragmentKind::Tappable => self.tappable.is_some(),
        }
    }

    /// Detach the fragment of `kind`; a no-op when none is attached.
    pub fn remove(&mut self, kind: CardFragmentKind)
        ensures
            forall|k: CardFragmentKind|
                #[trigger] final(self).get(k) == if k == kind {
                    None
                } else {
                    old(self).get(k)
                },
    {
        match kind {
            CardFragmentKind::Creature => { self.creature = None; },
            CardFragmentKind::Tappable => { self.tappable = None; },
        }
    }
}

impl SerializableFragment {
    /// Attach this fragment, replacing any fragment of the same kind.
    pub fn to_fragment(&self, fragments: &mut FragmentMap)
        ensures
            forall|k: CardFragmentKind|
                #[trigger] final(fragments).get(k) == if k == self.spec_kind() {
                    Some(*self)
                } else {
                    old(fragments).get(k)
                },
    {
        match self {
            SerializableFragment::Creature(cf) => { fragments.creature = Some(*cf); },
            SerializableFragment::Tappable(tf) => { fragments.tappable = Some(*tf); },
        }
    }

    /// The fragment of `kind` attached in `fragments`; `None` when absent.
    pub fn from_fragment(fragments: &FragmentMap, kind: CardFragmentKind) -> (r: Option<Self>)
        ensures
            r == fragments.get(kind),
            r matches Some(f) ==> f.spec_kind() == kind,
    {
        match kind {
            CardFragmentKind::Creature => match fragments.creature {
                Some(cf) => Some(SerializableFragment::Creature(cf)),
                None => None,
            },
            CardFragmentKind::Tappable => match fragments.tappable {
                Some(tf) => Some(SerializableFragment::Tappable(tf)),
                None => None,
            },
        }
    }
}

/// A card: a name, type tags, a mana cost and attached fragments.
#[derive(Debug)]
pub struct Card {
    pub name: String,
    pub card_types: TypeSet,
    pub cost: u32,
    pub fragments: FragmentMap,
}

impl Clone for Card {
    fn clone(&self) -> (r: Self)
        ensures
            r == *self,
    {
        Card {
            name: self.name.clone(),
            card_types: self.card_types,
            cost: self.cost,
            fragments: self.fragments,
        }
    }
}

impl Card {
    pub open spec fn has_type(self, t: CardType) -> bool {
        self.card_types.has(t)
    }

    /// The card with tag `t` added.
    pub open spec fn spec_add_type(self, t: CardType) -> Card {
        Card {
            name: self.name,
            card_types: self.card_types.with(t),
            cost: self.cost,
            fragments: self.fragments,
        }
    }

    /// The card with tag `t` removed.
    pub open spec fn spec_remove_type(self, t: CardType) -> Card {
        Card {
            name: self.name,
            card_types: self.card_types.without(t),
            cost: self.cost,
            fragments: self.fragments,
        }
    }

    pub fn is_type(&self, t: CardType) -> (r: bool)
        ensures
            r == self.has_type(t),
    {
        self.card_types.contains(t)
    }

    /// Add a type tag; adding a present tag changes nothing. Fragments are untouched.
    pub fn add_type(&mut self, t: CardType)
        ensures
            *final(self) == old(self).spec_add_type(t),
            final(self).card_types.has(t),
            forall|u: CardType| u != t ==> final(self).card_types.has(u) == old(self).card_types.has(u),
            final(self).name == old(self).name,
            final(self).cost == old(self).cost,
            final(self).fragments == old(self).fragments,
    {
        self.card_types.insert(t);
    }

    /// Remove a type tag; removing an absent tag changes nothing. Fragments are untouched.
    pub fn remove_type(&mut self, t: CardType)
        ensures
            *final(self) == old(self).spec_remove_type(t),
            !final(self).card_types.has(t),
            forall|u: CardType| u != t ==> final(self).card_types.has(u) == old(self).card_types.has(u),
            final(self).name == old(self).name,
            final(self).cost == old(self).cost,
            final(self).fragments == old(self).fragments,
    {
        self.card_types.remove(t);
    }
}

/// Number of cards in `cards` that carry tag `t`.
pub open spec fn count_type(cards: Seq<Card>, t: CardType) -> nat
    decreases cards.len(),
{
    if cards.len() == 0 {
        0
    } else {
        count_type(cards.drop_last(), t) + if cards.last().has_type(t) {
            1nat
        } else {
            0nat
        }
    }
}

/// A deck: an ordered sequence of cards used as the template of a library.
#[derive(Debug)]
pub struct Deck {
    pub cards: Vec<Card>,
}

impl Clone for Deck {
    fn clone(&self) -> (r: Self)
        ensures
            r.cards@ == self.cards@,
    {
        Deck { cards: self.cards.clone() }
    }
}

impl Deck {
    /// Number of cards in the deck that carry tag `card_type`.
    pub fn count(&self, card_type: CardType) -> (r: usize)
        ensures
            r == count_type(self.cards@, card_type),
    {
        let mut n: usize = 0;
        let mut i: usize = 0;
        while i < self.cards.len()
            invariant
                i <= self.cards@.len(),
                n == count_type(self.cards@.take(i as int), card_type),
                n <= i,
            decreases self.cards@.len() - i,
        {
            assert(self.cards@.take(i + 1).drop_last() == self.cards@.take(i as int));
            if self.cards[i].is_type(card_type) {
                n = n + 1;
            }
            i = i + 1;
        }
        assert(self.cards@.take(i as int) == self.cards@);
        n
    }

    /// The example deck: 29 Forests followed by 31 Grizzly Bears.
    pub fn example() -> (r: Deck)
        ensures
            is_example_deck(r.cards@),
    {
        Deck { cards: deck_of(29, 31) }
    }
}

/// 29 Forests followed by 31 Grizzly Bears.
pub open spec fn is_example_deck(cards: Seq<Card>) -> bool {
    &&& cards.len() == 60
    &&& forall|i: int| 0 <= i < 29 ==> is_forest(#[trigger] cards[i])
    &&& forall|i: int| 29 <= i < 60 ==> is_grizzly_bears(#[trigger] cards[i])
}

/// `lands` Forests followed by `nonlands` Grizzly Bears.
pub fn deck_of(lands: usize, nonlands: usize) -> (r: Vec<Card>)
    requires
        lands + nonlands <= usize::MAX,
    ensures
        r@.len() == lands + nonlands,
        forall|i: int| 0 <= i < lands ==> is_forest(#[trigger] r@[i]),
        forall|i: int| lands <= i < lands + nonlands ==> is_grizzly_bears(#[trigger] r@[i]),
{
    let mut cards: Vec<Card> = Vec::new();
    let mut i: usize = 0;
    while i < lands
        invariant
            i <= lands,
            cards@.len() == i,
            forall|j: int| 0 <= j < i ==> is_forest(#[trigger] cards@[j]),
        decreases lands - i,
    {
        cards.push(forest());
        i = i + 1;
    }
    let mut k: usize = 0;
    while k < nonlands
        invariant
            k <= nonlands,
            lands + nonlands <= usize::MAX,
            cards@.len() == lands + k,
            forall|j: int| 0 <= j < lands ==> is_forest(#[trigger] cards@[j]),
            forall|j: int| lands <= j < lands + k ==> is_grizzly_bears(#[trigger] cards@[j]),
        decreases nonlands - k,
    {
        cards.push(grizzly_bears());
        k = k + 1;
    }
    cards
}

/// The Forest card: a Land that can be tapped, with no cost.
pub open spec fn is_forest(c: Card) -> bool {
    &&& c.name@ == "Forest"@
    &&& c.card_types == TypeSet { land: true, creature: false }
    &&& c.cost == 0
    &&& c.fragments == FragmentMap {
        creature: None,
        tappable: Some(TappableFragment { tapped: false }),
    }
}

/// The Grizzly Bears card: a 2/2 Creature of cost 2 that can be tapped.
pub open spec fn is_grizzly_bears(c: Card) -> bool {
    &&& c.name@ == "Grizzly Bears"@
    &&& c.card_types == TypeSet { land: false, creature: true }
    &&& c.cost == 2
    &&& c.fragments == FragmentMap {
        creature: Some(
            CreatureFragment {
                stats: CreatureStats { power: 2, toughness: 2 },
                summoning_sickness: false,
            },
        ),
        tappable: Some(TappableFragment { tapped: false }),
    }
}

pub fn forest() -> (r: Card)
    ensures
        is_forest(r),
{
    Card {
        name: "Forest".to_owned(),
        card_types: TypeSet { land: true, creature: false },
        cost: 0,
        fragments: FragmentMap { creature: None, tappable: Some(TappableFragment { tapped: false }) },
    }
}

pub fn grizzly_bears() -> (r: Card)
    ensures
        is_grizzly_bears(r),
{
    let stats = CreatureStats { power: 2, toughness: 2 };
    Card {
        name: "Grizzly Bears".to_owned(),
        card_types: TypeSet { land: false, creature: true },
        cost: 2,
        fragments: FragmentMap {
            creature: Some(CreatureFragment { stats, summoning_sickness: false }),
            tappable: Some(TappableFragment { tapped: false }),
        },
    }
}

} // verus!
