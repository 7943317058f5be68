//! Block states, their data (a name and string properties) and the registry
//! that numbers them.

use vstd::prelude::*;
use crate::text::{chars_of, seq_eq};

verus! {

/// Numeric id of a block state. Id 0 is air.
#[derive(Clone, Copy, Debug, PartialEq, Eq, Structural)]
pub struct BlockStateId(pub u32);

impl BlockStateId {
    /// The raw numeric id.
    pub fn raw(&self) -> (r: u32)
        ensures
            r == self.0,
    {
        self.0
    }

    /// The air block state (id 0).
    pub fn air() -> (r: Self)
        ensures
            r.0 == 0,
    {
        BlockStateId(0)
    }
}

/// The value stored under `key` in `entries`; a later entry wins over an earlier one.
pub open spec fn lookup(entries: Seq<(Seq<char>, Seq<char>)>, key: Seq<char>) -> Option<Seq<char>>
    decreases entries.len(),
{
    if entries.len() == 0 {
        None
    } else if entries.last().0 == key {
        Some(entries.last().1)
    } else {
        lookup(entries.drop_last(), key)
    }
}

/// A key that `lookup` finds stands in some entry.
pub proof fn lemma_lookup_some(entries: Seq<(Seq<char>, Seq<char>)>, key: Seq<char>)
    requires
        lookup(entries, key) is Some,
    ensures
        exists|i: int| 0 <= i < entries.len() && #[trigger] entries[i].0 == key,
    decreases entries.len(),
{
    if entries.last().0 == key {
        assert(entries[entries.len() - 1].0 == key);
    } else {
        lemma_lookup_some(entries.drop_last(), key);
        let i = choose|i: int| 0 <= i < entries.drop_last().len() && #[trigger] entries.drop_last()[i].0 == key;
        assert(entries[i].0 == key);
    }
}

/// The entries of a property list as character sequences.
pub open spec fn pairs_view(v: Seq<(String, String)>) -> Seq<(Seq<char>, Seq<char>)> {
    v.map_values(|e: (String, String)| (e.0@, e.1@))
}

/// String properties of a block state, such as `open = "true"`.
pub struct Properties {
    entries: Vec<(String, String)>,
}

impl View for Properties {
    type V = Map<Seq<char>, Seq<char>>;

    /// The properties as a map from name to value.
    open spec fn view(&self) -> Map<Seq<char>, Seq<char>> {
        Map::new(
            |k: Seq<char>| lookup(self.entries_view(), k) is Some,
            |k: Seq<char>| lookup(self.entries_view(), k)->0,
        )
    }
}

impl Properties {
    /// The entries as character sequences, in insertion order.
    pub closed spec fn entries_view(&self) -> Seq<(Seq<char>, Seq<char>)> {
        pairs_view(self.entries@)
    }

    /// No properties.
    pub fn new() -> (r: Self)
        ensures
            r@ == Map::<Seq<char>, Seq<char>>::empty(),
    {
        let r = Properties { entries: Vec::new() };
        assert(r@ =~= Map::<Seq<char>, Seq<char>>::empty());
        r
    }

    /// The value of property `key`, if set.
    pub fn get(&self, key: &str) -> (r: Option<&String>)
        ensures
            r matches Some(v) ==> self@.contains_key(key@) && v@ == self@[key@],
            r is None ==> !self@.contains_key(key@),
    {
        let k = chars_of(key);
        self.get_chars(&k)
    }

    fn get_chars(&self, key: &Vec<char>) -> (r: Option<&String>)
        ensures
            r matches Some(v) ==> lookup(self.entries_view(), key@) == Some(v@),
            r is None ==> lookup(self.entries_view(), key@) is None,
    {
        let mut i: usize = self.entries.len();
        assert(self.entries_view().take(i as int) =~= self.entries_view());
        while i > 0
            invariant
                i <= self.entries.len(),
                lookup(self.entries_view(), key@) == lookup(self.entries_view().take(i as int), key@),
            decreases i,
        {
            let ghost pre = self.entries_view().take(i as int);
            let kc = chars_of(self.entries[i - 1].0.as_str());
            if seq_eq(kc.as_slice(), key.as_slice()) {
                return Some(&self.entries[i - 1].1);
            }
            assert(pre.drop_last() =~= self.entries_view().take(i - 1));
            i = i - 1;
        }
        None
    }

    /// Sets property `key` to `value`, replacing any earlier value.
    pub fn insert(&mut self, key: String, value: String)
        ensures
            final(self)@ == old(self)@.insert(key@, value@),
    {
        let mut kept: Vec<(String, String)> = Vec::new();
        let kc = chars_of(key.as_str());
        let mut i: usize = 0;
        while i < self.entries.len()
            invariant
                i <= self.entries.len(),
                kc@ == key@,
                forall|k: Seq<char>| k != key@ ==>
                    #[trigger] lookup(pairs_view(kept@), k)
                    == lookup(self.entries_view().take(i as int), k),
                lookup(pairs_view(kept@), key@) is None,
            decreases self.entries.len() - i,
        {
            let ec = chars_of(self.entries[i].0.as_str());
            let ghost kv = pairs_view(kept@);
            let ghost prev = self.entries_view().take(i as int);
            assert(forall|k: Seq<char>| k != key@ ==> lookup(kv, k) == lookup(prev, k));
            let ghost cur = self.entries_view().take(i + 1);
            assert(cur.drop_last() =~= prev);
            assert(cur.last() == (self.entries@[i as int].0@, self.entries@[i as int].1@));
            if !seq_eq(ec.as_slice(), kc.as_slice()) {
                let a = self.entries[i].0.clone();
                let b = self.entries[i].1.clone();
                kept.push((a, b));
                assert(pairs_view(kept@).drop_last() =~= kv);
                assert(pairs_view(kept@).last() == (a@, b@));
            }
            assert forall|k: Seq<char>| k != key@ implies
                #[trigger] lookup(pairs_view(kept@), k) == lookup(cur, k) by {
                assert(lookup(kv, k) == lookup(prev, k));
            }
            i = i + 1;
        }
        assert(self.entries_view().take(self.entries.len() as int) =~= self.entries_view());
        let ghost kv = pairs_view(kept@);
        let ghost old_view = self@;
        kept.push((key, value));
        self.entries = kept;
        assert(self.entries_view().drop_last() =~= kv);
        assert(self.entries_view().last() == (key@, value@));
        assert forall|k: Seq<char>| lookup(self.entries_view(), k) == (if k == key@ {
            Some(value@)
        } else {
            lookup(kv, k)
        }) by {}
        assert(self@ =~= old_view.insert(key@, value@));
    }

    /// Whether `self` and `other` hold the same properties.
    pub fn same_as(&self, other: &Properties) -> (r: bool)
        ensures
            r == (self@ == other@),
    {
        let r1 = self.covered_by(other);
        let r2 = other.covered_by(self);
        proof {
            if r1 && r2 {
                assert forall|k: Seq<char>| lookup(self.entries_view(), k) == lookup(other.entries_view(), k) by {
                    if lookup(self.entries_view(), k) is Some {
                        lemma_lookup_some(self.entries_view(), k);
                    } else if lookup(other.entries_view(), k) is Some {
                        lemma_lookup_some(other.entries_view(), k);
                    }
                }
                assert(self@ =~= other@);
            }
        }
        r1 && r2
    }

    /// Every entry of `self` is what `other` holds under that key.
    fn covered_by(&self, other: &Properties) -> (r: bool)
        ensures
            r == (forall|i: int| 0 <= i < self.entries_view().len() ==>
                lookup(other.entries_view(), #[trigger] self.entries_view()[i].0)
                    == lookup(self.entries_view(), self.entries_view()[i].0)),
            !r ==> self@ != other@,
    {
        let mut i: usize = 0;
        while i < self.entries.len()
            invariant
                i <= self.entries.len(),
                forall|j: int| 0 <= j < i ==>
                    lookup(other.entries_view(), #[trigger] self.entries_view()[j].0)
                        == lookup(self.entries_view(), self.entries_view()[j].0),
            decreases self.entries.len() - i,
        {
            let kc = chars_of(self.entries[i].0.as_str());
            let a = self.get_chars(&kc);
            let b = other.get_chars(&kc);
            let same = match (a, b) {
                (Some(x), Some(y)) => {
                    let xc = chars_of(x.as_str());
                    let yc = chars_of(y.as_str());
                    seq_eq(xc.as_slice(), yc.as_slice())
                },
                (None, None) => true,
                _ => false,
            };
            if !same {
                proof {
                    let k = self.entries_view()[i as int].0;
                    assert(k == kc@);
                    assert(lookup(other.entries_view(), k) != lookup(self.entries_view(), k));
                    if self@ == other@ {
                        assert(self@.contains_key(k) == other@.contains_key(k));
                        if self@.contains_key(k) {
                            assert(self@[k] == other@[k]);
                        }
                    }
                }
                return false;
            }
            i = i + 1;
        }
        true
    }

    /// A copy holding the same entries.
    pub fn copy(&self) -> (r: Properties)
        ensures
            r.entries_view() == self.entries_view(),
            r@ == self@,
    {
        let mut entries: Vec<(String, String)> = Vec::new();
        let mut i: usize = 0;
        while i < self.entries.len()
            invariant
                i <= self.entries.len(),
                pairs_view(entries@) == self.entries_view().take(i as int),
            decreases self.entries.len() - i,
        {
            let a = self.entries[i].0.clone();
            let b = self.entries[i].1.clone();
            let ghost before = pairs_view(entries@);
            entries.push((a, b));
            assert(pairs_view(entries@).drop_last() =~= before);
            assert(self.entries_view()[i as int] == (self.entries@[i as int].0@, self.entries@[i as int].1@));
            assert(pairs_view(entries@) =~= self.entries_view().take(i + 1));
            i = i + 1;
        }
        assert(self.entries_view().take(self.entries.len() as int) =~= self.entries_view());
        let r = Properties { entries };
        assert(r@ =~= self@);
        r
    }
}


/// The view of a block's data: its name and, if it has any, its properties.
pub type BlockDataView = (Seq<char>, Option<Map<Seq<char>, Seq<char>>>);

/// The name and properties of a block state, e.g. `minecraft:oak_door` with
/// `open = "false"`.
pub struct BlockData {
    pub name: String,
    pub properties: Option<Properties>,
}

impl View for BlockData {
    type V = BlockDataView;

    open spec fn view(&self) -> BlockDataView {
        (
            self.name@,
            match self.properties {
                Some(p) => Some(p@),
                None => None,
            },
        )
    }
}

impl BlockData {
    /// A copy with the same name and properties.
    pub fn copy(&self) -> (r: BlockData)
        ensures
            r@ == self@,
    {
        let properties = match &self.properties {
            Some(p) => Some(p.copy()),
            None => None,
        };
        BlockData { name: self.name.clone(), properties }
    }

    /// Whether `self` and `other` have the same name and properties.
    pub fn same_as(&self, other: &BlockData) -> (r: bool)
        ensures
            r == (self@ == other@),
    {
        let a = chars_of(self.name.as_str());
        let b = chars_of(other.name.as_str());
        if !seq_eq(a.as_slice(), b.as_slice()) {
            return false;
        }
        match (&self.properties, &other.properties) {
            (Some(p), Some(q)) => p.same_as(q),
            (None, None) => true,
            _ => false,
        }
    }
}

/// The lowest index at which `states` holds `d`, as a block state id; 0 (air)
/// when no state matches.
pub open spec fn state_id_for(states: Seq<BlockDataView>, d: BlockDataView) -> u32 {
    if exists|i: int| 0 <= i < states.len() && states[i] == d {
        (choose|i: int|
            0 <= i < states.len() && states[i] == d && (forall|j: int| 0 <= j < i ==> states[j] != d)) as u32
    } else {
        0
    }
}

/// The table of block states; a state's id is its index.
pub struct BlockRegistry {
    states: Vec<BlockData>,
}

impl View for BlockRegistry {
    type V = Seq<BlockDataView>;

    closed spec fn view(&self) -> Seq<BlockDataView> {
        self.states@.map_values(|d: BlockData| d@)
    }
}

impl BlockRegistry {
    #[verifier::type_invariant]
    closed spec fn ids_fit(&self) -> bool {
        self.states.len() <= 0x1_0000_0000
    }

    /// The registry whose state with id `i` is `states[i]`.
    pub fn new(states: Vec<BlockData>) -> (r: BlockRegistry)
        requires
            states.len() <= 0x1_0000_0000,
        ensures
            r@ == states@.map_values(|d: BlockData| d@),
    {
        BlockRegistry { states }
    }

    /// Number of registered states.
    pub fn len(&self) -> (r: usize)
        ensures
            r == self@.len(),
    {
        self.states.len()
    }

    /// The data of state `id`, if it is registered.
    pub fn to_block_data(&self, id: BlockStateId) -> (r: Option<&BlockData>)
        ensures
            r is Some <==> id.0 < self@.len(),
            r matches Some(d) ==> d@ == self@[id.0 as int],
    {
        let i = id.0 as usize;
        if (id.0 as u64) < (self.states.len() as u64) {
            Some(&self.states[i])
        } else {
            None
        }
    }

    /// The id of the first registered state with the same name and
    /// properties as `data`; air when none matches.
    pub fn from_block_data(&self, data: &BlockData) -> (r: BlockStateId)
        ensures
            r.0 == state_id_for(self@, data@),
    {
        proof {
            use_type_invariant(self);
        }
        let mut i: usize = 0;
        while i < self.states.len()
            invariant
                i <= self.states.len(),
                self.states.len() <= 0x1_0000_0000,
                forall|j: int| 0 <= j < i ==> self@[j] != data@,
            decreases self.states.len() - i,
        {
            if self.states[i].same_as(data) {
                proof {
                    let c = choose|k: int|
                        0 <= k < self@.len() && self@[k] == data@ && (forall|j: int| 0 <= j < k ==> self@[j] != data@);
                    assert(self@[i as int] == data@);
                    if c < i {
                        assert(self@[c] != data@);
                    }
                    if c > i {
                        assert(self@[i as int] != data@);
                    }
                }
                return BlockStateId(i as u32);
            }
            i = i + 1;
        }
        BlockStateId(0)
    }
}


/// Looking up data that is registered gives a registered state holding
/// exactly that data.
pub proof fn lemma_registered_data_round_trip(states: Seq<BlockDataView>, d: BlockDataView)
    requires
        exists|i: int| 0 <= i < states.len() && states[i] == d,
        states.len() <= 0x1_0000_0000,
    ensures
        (state_id_for(states, d) as int) < states.len(),
        states[state_id_for(states, d) as int] == d,
{
    let w = choose|i: int| 0 <= i < states.len() && states[i] == d;
    lemma_first_index_exists(states, d, w);
    let c = choose|i: int|
        0 <= i < states.len() && states[i] == d && (forall|j: int| 0 <= j < i ==> states[j] != d);
    assert(0 <= c < states.len());
}

/// Some least index holds `d` when any index does.
proof fn lemma_first_index_exists(states: Seq<BlockDataView>, d: BlockDataView, w: int)
    requires
        0 <= w < states.len(),
        states[w] == d,
    ensures
        exists|i: int| 0 <= i < states.len() && states[i] == d && (forall|j: int| 0 <= j < i ==> states[j] != d),
    decreases w,
{
    if exists|j: int| 0 <= j < w && states[j] == d {
        let j = choose|j: int| 0 <= j < w && states[j] == d;
        lemma_first_index_exists(states, d, j);
    } else {
        assert(forall|j: int| 0 <= j < w ==> states[j] != d);
    }
}

/// In a registry without duplicate states, looking up the data of a
/// registered id gives that id back.
pub proof fn lemma_registered_id_round_trip(states: Seq<BlockDataView>, id: u32)
    requires
        (id as int) < states.len(),
        states.len() <= 0x1_0000_0000,
        forall|i: int, j: int| 0 <= i < j < states.len() ==> states[i] != states[j],
    ensures
        state_id_for(states, states[id as int]) == id,
{
    lemma_registered_data_round_trip(states, states[id as int]);
    let c = state_id_for(states, states[id as int]) as int;
    if c != id as int {
        if c < id as int {
            assert(states[c] != states[id as int]);
        } else {
            assert(states[id as int] != states[c]);
        }
    }
}

} // verus!
