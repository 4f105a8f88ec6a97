//! Lists of values under attribute sets, found by hashing.

use crate::model;
use crate::model::{KeyValue, Str, Value};
use crate::text;
use std::sync::Arc;
use vstd::prelude::*;
use vstd::string::*;

verus! {

/// Positions under fingerprints, in a hash map.
#[verifier::external_body]
pub struct Index {
    map: hashbrown::HashMap<u64, Vec<usize>>,
}

/// The positions that an index holds under each fingerprint.
pub uninterp spec fn positions(index: Index) -> Map<u64, Seq<usize>>;

impl Index {
    /// `HashMap::new` of hashbrown: a map without entries.
    #[verifier::external_body]
    fn new() -> (r: Index)
        ensures
            positions(r) == (Map::<u64, Seq<usize>>::empty()),
    {
        Index { map: hashbrown::HashMap::new() }
    }

    /// `HashMap::get` of hashbrown: the value under a key, where there is one.
    #[verifier::external_body]
    fn get(&self, fingerprint: u64) -> (r: Option<&Vec<usize>>)
        ensures
            match r {
                Some(found) => positions(*self).contains_key(fingerprint) && found@ == positions(*self)[fingerprint],
                None => !positions(*self).contains_key(fingerprint),
            },
    {
        self.map.get(&fingerprint)
    }

    /// `HashMap::insert` of hashbrown: the value stands under the key, in place of what stood there.
    #[verifier::external_body]
    fn insert(&mut self, fingerprint: u64, list: Vec<usize>)
        ensures
            positions(*final(self)) == positions(*old(self)).insert(fingerprint, list@),
    {
        let _ = self.map.insert(fingerprint, list);
    }

    /// `HashMap::remove` of hashbrown: takes the value under a key out, where there is one.
    #[verifier::external_body]
    fn remove(&mut self, fingerprint: u64) -> (r: Option<Vec<usize>>)
        ensures
            positions(*final(self)) == positions(*old(self)).remove(fingerprint),
            match r {
                Some(taken) => positions(*old(self)).contains_key(fingerprint) && taken@ == positions(
                    *old(self),
                )[fingerprint],
                None => !positions(*old(self)).contains_key(fingerprint),
            },
    {
        self.map.remove(&fingerprint)
    }
}

/// A hash of a text, carried on from `seed`.
pub open spec fn text_hash(seed: u64, text: Seq<char>) -> u64
    decreases text.len(),
{
    if text.len() == 0 {
        seed
    } else {
        text_hash(seed, text.drop_last()).wrapping_mul(31).wrapping_add(text.last() as u64)
    }
}

/// A hash of an attribute, carried on from `seed`. Attributes that are equal have the same hash.
pub open spec fn attr_hash(seed: u64, attr: model::KeyValueView) -> u64 {
    let key = text_hash(seed.wrapping_mul(31), attr.key);
    match attr.value {
        Some(model::ValueView::String(text)) => text_hash(key.wrapping_add(1), text),
        Some(model::ValueView::Bool(value)) => key.wrapping_mul(31).wrapping_add(if value { 1 } else { 0 }),
        Some(model::ValueView::Int(value)) => key.wrapping_mul(31).wrapping_add(
            if value >= 0 { value as u64 } else { (-1 - value) as u64 },
        ),
        _ => key,
    }
}

/// A hash of an attribute list. Lists that are equal have the same fingerprint.
pub open spec fn fingerprint(attrs: Seq<model::KeyValueView>) -> u64
    decreases attrs.len(),
{
    if attrs.len() == 0 {
        0
    } else {
        attr_hash(fingerprint(attrs.drop_last()), attrs.last())
    }
}

proof fn lemma_equal_attrs_pointwise(a: Seq<model::KeyValueView>, b: Seq<model::KeyValueView>)
    requires
        model::rank_attrs(a, b) == 0,
    ensures
        a.len() == b.len(),
        forall|i: int| 0 <= i < a.len() ==> model::rank_attr(#[trigger] a[i], b[i]) == 0,
    decreases a.len(),
{
    if a.len() > 0 {
        let a_rest = a.subrange(1, a.len() as int);
        let b_rest = b.drop_first();
        lemma_equal_attrs_pointwise(a_rest, b_rest);
        assert forall|i: int| 0 <= i < a.len() implies model::rank_attr(#[trigger] a[i], b[i]) == 0 by {
            if i > 0 {
                assert(model::rank_attr(a_rest[i - 1], b_rest[i - 1]) == 0);
            }
        }
    }
}

proof fn lemma_equal_attr_hash(seed: u64, a: model::KeyValueView, b: model::KeyValueView)
    requires
        model::rank_attr(a, b) == 0,
    ensures
        attr_hash(seed, a) == attr_hash(seed, b),
{
    text::lemma_rank_text_flip(a.key, b.key);
    match (a.value, b.value) {
        (Some(model::ValueView::String(x)), Some(model::ValueView::String(y))) => {
            text::lemma_rank_text_flip(x, y);
        },
        _ => {},
    }
}

proof fn lemma_pointwise_fingerprint(a: Seq<model::KeyValueView>, b: Seq<model::KeyValueView>)
    requires
        a.len() == b.len(),
        forall|i: int| 0 <= i < a.len() ==> model::rank_attr(#[trigger] a[i], b[i]) == 0,
    ensures
        fingerprint(a) == fingerprint(b),
    decreases a.len(),
{
    if a.len() > 0 {
        assert forall|i: int| 0 <= i < a.drop_last().len() implies model::rank_attr(
            #[trigger] a.drop_last()[i],
            b.drop_last()[i],
        ) == 0 by {
            assert(model::rank_attr(a[i], b[i]) == 0);
        }
        lemma_pointwise_fingerprint(a.drop_last(), b.drop_last());
        assert(model::rank_attr(a[a.len() - 1], b[b.len() - 1]) == 0);
        lemma_equal_attr_hash(fingerprint(a.drop_last()), a.last(), b.last());
    }
}

/// Equal attribute lists have the same fingerprint.
pub proof fn equal_attrs_share_a_fingerprint(a: Seq<model::KeyValueView>, b: Seq<model::KeyValueView>)
    requires
        model::rank_attrs(a, b) == 0,
    ensures
        fingerprint(a) == fingerprint(b),
{
    lemma_equal_attrs_pointwise(a, b);
    lemma_pointwise_fingerprint(a, b);
}

impl Str {
    /// A hash of the text, carried on from `seed`. How the text is held does not matter.
    pub fn hash_from(&self, seed: u64) -> (r: u64)
        ensures
            r == text_hash(seed, self@),
    {
        let chars = text::chars_of(self.as_str());
        let mut hash: u64 = seed;
        let mut i: usize = 0;
        while i < chars.len()
            invariant
                i <= chars@.len(),
                hash == text_hash(seed, chars@.take(i as int)),
            decreases chars@.len() - i,
        {
            assert(chars@.take(i + 1).drop_last() =~= chars@.take(i as int));
            hash = hash.wrapping_mul(31).wrapping_add(chars[i] as u64);
            i = i + 1;
        }
        assert(chars@.take(i as int) =~= self@);
        hash
    }
}

fn hash_attr(seed: u64, attr: &KeyValue) -> (r: u64)
    ensures
        r == attr_hash(seed, attr@),
{
    let key: u64 = attr.key.hash_from(seed.wrapping_mul(31));
    match &attr.value {
        Some(Value::String(text)) => text.hash_from(key.wrapping_add(1)),
        Some(Value::Bool(value)) => key.wrapping_mul(31).wrapping_add(if *value { 1 } else { 0 }),
        Some(Value::Int(value)) => {
            let folded: u64 = if *value >= 0 { *value as u64 } else { (-1 - *value) as u64 };
            key.wrapping_mul(31).wrapping_add(folded)
        },
        _ => key,
    }
}

fn fingerprint_of(attrs: &Vec<KeyValue>) -> (r: u64)
    ensures
        r == fingerprint(model::attrs_view(attrs@)),
{
    let ghost all = model::attrs_view(attrs@);
    let mut hash: u64 = 0;
    let mut i: usize = 0;
    while i < attrs.len()
        invariant
            i <= attrs@.len(),
            all == model::attrs_view(attrs@),
            hash == fingerprint(all.take(i as int)),
        decreases attrs@.len() - i,
    {
        assert(all.take(i + 1).drop_last() =~= all.take(i as int));
        assert(all.take(i + 1).last() == attrs@[i as int]@);
        hash = hash_attr(hash, &attrs[i]);
        i = i + 1;
    }
    assert(all.take(i as int) =~= all);
    hash
}

/// A value under an attribute set.
pub struct Entry<V> {
    pub attrs: Arc<Vec<KeyValue>>,
    pub value: V,
}

impl<V> View for Entry<V> {
    type V = (Seq<model::KeyValueView>, V);

    open spec fn view(&self) -> (Seq<model::KeyValueView>, V) {
        (model::attrs_view(self.attrs@), self.value)
    }
}

/// The position of the entry under an attribute set, where there is one.
pub open spec fn position_of<V>(
    entries: Seq<(Seq<model::KeyValueView>, V)>,
    attrs: Seq<model::KeyValueView>,
) -> Option<int>
    decreases entries.len(),
{
    if entries.len() == 0 {
        None
    } else if model::rank_attrs(entries.last().0, attrs) == 0 {
        Some(entries.len() - 1)
    } else {
        position_of(entries.drop_last(), attrs)
    }
}

/// Whether no attribute set has two entries.
pub open spec fn keys_are_distinct<V>(entries: Seq<(Seq<model::KeyValueView>, V)>) -> bool {
    forall|i: int, j: int|
        0 <= i < j < entries.len() ==> model::rank_attrs(#[trigger] entries[i].0, #[trigger] entries[j].0) != 0
}

/// A position is found exactly where an entry stands under the attribute set.
pub proof fn lemma_position<V>(
    entries: Seq<(Seq<model::KeyValueView>, V)>,
    attrs: Seq<model::KeyValueView>,
)
    ensures
        match position_of(entries, attrs) {
            Some(i) => 0 <= i < entries.len() && model::rank_attrs(entries[i].0, attrs) == 0,
            None => forall|i: int|
                0 <= i < entries.len() ==> model::rank_attrs(#[trigger] entries[i].0, attrs) != 0,
        },
    decreases entries.len(),
{
    if entries.len() > 0 && model::rank_attrs(entries.last().0, attrs) != 0 {
        lemma_position(entries.drop_last(), attrs);
        if position_of(entries, attrs) is None {
            assert forall|i: int| 0 <= i < entries.len() implies model::rank_attrs(
                #[trigger] entries[i].0,
                attrs,
            ) != 0 by {
                if i < entries.len() - 1 {
                    assert(model::rank_attrs(entries.drop_last()[i].0, attrs) != 0);
                }
            }
        }
    }
}

/// Where the keys are distinct, an entry that stands under an attribute set is the one that is found.
pub proof fn lemma_position_unique<V>(
    entries: Seq<(Seq<model::KeyValueView>, V)>,
    attrs: Seq<model::KeyValueView>,
    i: int,
)
    requires
        keys_are_distinct(entries),
        0 <= i < entries.len(),
        model::rank_attrs(entries[i].0, attrs) == 0,
    ensures
        position_of(entries, attrs) == Some(i),
{
    lemma_position(entries, attrs);
    let found = position_of(entries, attrs)->0;
    if found != i {
        model::equal_attrs_is_an_equivalence(entries[i].0, attrs, entries[found].0);
        model::equal_attrs_is_an_equivalence(entries[found].0, attrs, entries[i].0);
        if found < i {
            assert(model::rank_attrs(entries[found].0, entries[i].0) != 0);
        } else {
            assert(model::rank_attrs(entries[i].0, entries[found].0) != 0);
        }
    }
}

/// The values under the same attribute sets as those of another list, in the same order, give the
/// same positions.
pub proof fn lemma_position_by_keys<V, W>(
    a: Seq<(Seq<model::KeyValueView>, V)>,
    b: Seq<(Seq<model::KeyValueView>, W)>,
    attrs: Seq<model::KeyValueView>,
)
    requires
        a.len() == b.len(),
        forall|i: int| 0 <= i < a.len() ==> #[trigger] a[i].0 == b[i].0,
    ensures
        position_of(a, attrs) == position_of(b, attrs),
    decreases a.len(),
{
    if a.len() > 0 {
        assert(a[a.len() - 1].0 == b[b.len() - 1].0);
        assert forall|i: int| 0 <= i < a.drop_last().len() implies #[trigger] a.drop_last()[i].0
            == b.drop_last()[i].0 by {
            assert(a[i].0 == b[i].0);
        }
        lemma_position_by_keys(a.drop_last(), b.drop_last(), attrs);
    }
}

/// Values under attribute sets, in the order in which the sets came. Attribute sets that are equal
/// share one entry.
pub struct AttrMap<V> {
    entries: Vec<Entry<V>>,
    index: Index,
}

impl<V> View for AttrMap<V> {
    type V = Seq<(Seq<model::KeyValueView>, V)>;

    closed spec fn view(&self) -> Seq<(Seq<model::KeyValueView>, V)> {
        entries_view(self.entries@)
    }
}

/// What entries hold.
pub open spec fn entries_view<V>(entries: Seq<Entry<V>>) -> Seq<(Seq<model::KeyValueView>, V)> {
    entries.map_values(|entry: Entry<V>| entry@)
}

/// Whether no attribute set has two entries, and every entry is listed under its fingerprint.
spec fn indexed<V>(entries: Seq<(Seq<model::KeyValueView>, V)>, index: Index) -> bool {
    &&& keys_are_distinct(entries)
    &&& forall|i: int|
        0 <= i < entries.len() ==> positions(index).contains_key(fingerprint(#[trigger] entries[i].0))
            && positions(index)[fingerprint(entries[i].0)].contains(i as usize)
    &&& forall|key: u64, j: int|
        positions(index).contains_key(key) && 0 <= j < positions(index)[key].len()
            ==> #[trigger] positions(index)[key][j] < entries.len()
}

proof fn lemma_indexed_by_keys<V>(
    a: Seq<(Seq<model::KeyValueView>, V)>,
    b: Seq<(Seq<model::KeyValueView>, V)>,
    index: Index,
)
    requires
        indexed(a, index),
        a.len() == b.len(),
        forall|i: int| 0 <= i < a.len() ==> #[trigger] a[i].0 == b[i].0,
    ensures
        indexed(b, index),
{
    assert forall|i: int, j: int| 0 <= i < j < b.len() implies model::rank_attrs(
        #[trigger] b[i].0,
        #[trigger] b[j].0,
    ) != 0 by {
        assert(a[i].0 == b[i].0 && a[j].0 == b[j].0);
    }
    assert forall|i: int| 0 <= i < b.len() implies positions(index).contains_key(
        fingerprint(#[trigger] b[i].0),
    ) && positions(index)[fingerprint(b[i].0)].contains(i as usize) by {
        assert(a[i].0 == b[i].0);
    }
}

impl<V> AttrMap<V> {
    /// No attribute set has two entries, and the index finds every entry.
    pub closed spec fn wf(&self) -> bool {
        indexed(self@, self.index)
    }

    pub fn new() -> (r: AttrMap<V>)
        ensures
            r.wf(),
            r@ == Seq::<(Seq<model::KeyValueView>, V)>::empty(),
    {
        let r = AttrMap { entries: Vec::new(), index: Index::new() };
        assert(r@ =~= Seq::<(Seq<model::KeyValueView>, V)>::empty());
        r
    }

    pub fn len(&self) -> (r: usize)
        ensures
            r == self@.len(),
    {
        self.entries.len()
    }

    /// The position of the entry under an attribute set.
    pub fn find(&self, attrs: &Vec<KeyValue>) -> (r: Option<usize>)
        requires
            self.wf(),
        ensures
            match r {
                Some(i) => position_of(self@, model::attrs_view(attrs@)) == Some(i as int) && i < self@.len(),
                None => position_of(self@, model::attrs_view(attrs@)) is None,
            },
    {
        let ghost key = model::attrs_view(attrs@);
        let hash: u64 = fingerprint_of(attrs);
        let candidates = match self.index.get(hash) {
            Some(candidates) => candidates,
            None => {
                proof {
                    lemma_position(self@, key);
                    if let Some(i) = position_of(self@, key) {
                        equal_attrs_share_a_fingerprint(self@[i].0, key);
                    }
                }
                return None;
            },
        };
        let mut j: usize = 0;
        while j < candidates.len()
            invariant
                self.wf(),
                j <= candidates@.len(),
                key == model::attrs_view(attrs@),
                positions(self.index).contains_key(hash),
                candidates@ == positions(self.index)[hash],
                forall|k: int|
                    0 <= k < j ==> model::rank_attrs(self@[(#[trigger] candidates@[k]) as int].0, key) != 0,
            decreases candidates@.len() - j,
        {
            let at: usize = candidates[j];
            assert(positions(self.index)[hash][j as int] < self@.len());
            assert(self@[at as int] == self.entries@[at as int]@);
            if model::compare_attrs(&self.entries[at].attrs, attrs) == 0 {
                proof {
                    lemma_position_unique(self@, key, at as int);
                }
                return Some(at);
            }
            j = j + 1;
        }
        let total: usize = self.entries.len();
        proof {
            lemma_position(self@, key);
            if let Some(i) = position_of(self@, key) {
                assert(i < total);
                equal_attrs_share_a_fingerprint(self@[i].0, key);
                assert(candidates@.contains(i as usize));
                let k = choose|k: int| 0 <= k < candidates@.len() && candidates@[k] == i as usize;
                assert(model::rank_attrs(self@[candidates@[k] as int].0, key) != 0);
            }
        }
        None
    }

    /// The value under an attribute set, where there is one.
    pub fn get(&self, attrs: &Vec<KeyValue>) -> (r: Option<&V>)
        requires
            self.wf(),
        ensures
            match r {
                Some(value) => position_of(self@, model::attrs_view(attrs@)) is Some && *value
                    == self@[position_of(self@, model::attrs_view(attrs@))->0].1,
                None => position_of(self@, model::attrs_view(attrs@)) is None,
            },
    {
        match self.find(attrs) {
            Some(at) => Some(self.value_at(at)),
            None => None,
        }
    }

    /// No attribute set has two entries.
    pub proof fn keys_differ(&self)
        requires
            self.wf(),
        ensures
            keys_are_distinct(self@),
    {
    }

    /// The attribute set at a position.
    pub fn attrs_at(&self, at: usize) -> (r: &Arc<Vec<KeyValue>>)
        requires
            at < self@.len(),
        ensures
            model::attrs_view(r@) == self@[at as int].0,
    {
        assert(self@[at as int] == self.entries@[at as int]@);
        &self.entries[at].attrs
    }

    /// The value at a position.
    pub fn value_at(&self, at: usize) -> (r: &V)
        requires
            at < self@.len(),
        ensures
            *r == self@[at as int].1,
    {
        assert(self@[at as int] == self.entries@[at as int]@);
        &self.entries[at].value
    }

    /// The value at a position, to be changed in its place.
    pub fn value_at_mut(&mut self, at: usize) -> (r: &mut V)
        requires
            old(self).wf(),
            at < old(self)@.len(),
        ensures
            *r == old(self)@[at as int].1,
            final(self)@ == old(self)@.update(at as int, (old(self)@[at as int].0, *final(r))),
            final(self).wf(),
    {
        proof {
            let before = self@;
            assert forall|value: V| indexed(
                #[trigger] before.update(at as int, (before[at as int].0, value)),
                self.index,
            ) by {
                lemma_indexed_by_keys(
                    before,
                    before.update(at as int, (before[at as int].0, value)),
                    self.index,
                );
            }
        }
        &mut self.entries[at].value
    }

    /// Puts a value under an attribute set that has no entry yet.
    pub fn push(&mut self, attrs: Arc<Vec<KeyValue>>, value: V)
        requires
            old(self).wf(),
            position_of(old(self)@, model::attrs_view(attrs@)) is None,
        ensures
            final(self).wf(),
            final(self)@ == old(self)@.push((model::attrs_view(attrs@), value)),
    {
        let ghost before = self@;
        let ghost key = model::attrs_view(attrs@);
        let ghost old_positions = positions(self.index);
        let at: usize = self.entries.len();
        let hash: u64 = fingerprint_of(&attrs);
        let mut list = match self.index.remove(hash) {
            Some(list) => list,
            None => Vec::new(),
        };
        let ghost listed = list@;
        list.push(at);
        self.index.insert(hash, list);
        self.entries.push(Entry { attrs, value });
        let total: usize = self.entries.len();
        proof {
            let after = before.push((key, value));
            assert(self@ =~= after);
            lemma_position(before, key);
            assert forall|i: int, j: int| 0 <= i < j < after.len() implies model::rank_attrs(
                #[trigger] after[i].0,
                #[trigger] after[j].0,
            ) != 0 by {
                if j < before.len() {
                    assert(before[i].0 == after[i].0 && before[j].0 == after[j].0);
                } else {
                    assert(model::rank_attrs(before[i].0, key) != 0);
                }
            }
            assert forall|i: int| 0 <= i < after.len() implies positions(self.index).contains_key(
                fingerprint(#[trigger] after[i].0),
            ) && positions(self.index)[fingerprint(after[i].0)].contains(i as usize) by {
                if i < before.len() {
                    assert(before[i].0 == after[i].0);
                    assert(old_positions[fingerprint(before[i].0)].contains(i as usize));
                    if fingerprint(before[i].0) == hash {
                        let k = choose|k: int| 0 <= k < listed.len() && listed[k] == i as usize;
                        assert(listed.push(at)[k] == i as usize);
                    }
                } else {
                    assert(listed.push(at)[listed.len() as int] == at);
                }
            }
            assert forall|other: u64, j: int|
                positions(self.index).contains_key(other) && 0 <= j < positions(self.index)[other].len() implies
            #[trigger] positions(self.index)[other][j] < after.len() by {
                if other != hash {
                    assert(old_positions[other][j] < before.len());
                } else if j < listed.len() {
                    assert(old_positions[hash][j] < before.len());
                }
            }
        }
    }

    /// The entries, in their order.
    pub fn into_entries(self) -> (r: Vec<Entry<V>>)
        ensures
            entries_view(r@) == self@,
    {
        self.entries
    }

    /// Takes every entry out.
    pub fn take(&mut self) -> (r: Vec<Entry<V>>)
        requires
            old(self).wf(),
        ensures
            final(self).wf(),
            final(self)@ == Seq::<(Seq<model::KeyValueView>, V)>::empty(),
            entries_view(r@) == old(self)@,
            keys_are_distinct(entries_view(r@)),
    {
        let mut entries: Vec<Entry<V>> = Vec::new();
        std::mem::swap(&mut entries, &mut self.entries);
        self.index = Index::new();
        assert(self@ =~= Seq::<(Seq<model::KeyValueView>, V)>::empty());
        entries
    }
}

} // verus!
