use std::cmp::Ordering;
use vstd::prelude::*;

verus! {

/// Lexicographic order on byte strings: a proper prefix comes first, otherwise
/// the first differing byte decides.
pub open spec fn bytes_lt(a: Seq<u8>, b: Seq<u8>) -> bool
    decreases a.len(),
{
    if a.len() == 0 {
        b.len() > 0
    } else if b.len() == 0 {
        false
    } else if a[0] != b[0] {
        a[0] < b[0]
    } else {
        bytes_lt(a.drop_first(), b.drop_first())
    }
}

/// `a` comes before `b` or equals it.
pub open spec fn bytes_le(a: Seq<u8>, b: Seq<u8>) -> bool {
    bytes_lt(a, b) || a == b
}

/// The views of a list of byte strings.
pub open spec fn byte_strings(list: Seq<Vec<u8>>) -> Seq<Seq<u8>> {
    list.map_values(|v: Vec<u8>| v@)
}

/// Each byte string is at most the ones after it.
pub open spec fn sorted(list: Seq<Seq<u8>>) -> bool {
    forall|i: int, j: int| 0 <= i < j < list.len() ==> #[trigger] bytes_le(list[i], list[j])
}

/// Each byte string is below the ones after it.
pub open spec fn strictly_sorted(list: Seq<Seq<u8>>) -> bool {
    forall|i: int, j: int| 0 <= i < j < list.len() ==> #[trigger] bytes_lt(list[i], list[j])
}

/// No byte string comes before itself.
pub proof fn lemma_bytes_lt_irreflexive(a: Seq<u8>)
    ensures
        !bytes_lt(a, a),
    decreases a.len(),
{
    if a.len() > 0 {
        lemma_bytes_lt_irreflexive(a.drop_first());
    }
}

/// Exactly one of `a < b`, `a == b`, `b < a` holds.
pub proof fn lemma_bytes_trichotomy(a: Seq<u8>, b: Seq<u8>)
    ensures
        bytes_lt(a, b) || a == b || bytes_lt(b, a),
        !(bytes_lt(a, b) && bytes_lt(b, a)),
        bytes_lt(a, b) ==> a != b,
    decreases a.len(),
{
    lemma_bytes_lt_irreflexive(a);
    if a.len() > 0 && b.len() > 0 && a[0] == b[0] {
        lemma_bytes_trichotomy(a.drop_first(), b.drop_first());
        if a.drop_first() == b.drop_first() {
            assert(a =~= seq![a[0]] + a.drop_first());
            assert(b =~= seq![b[0]] + b.drop_first());
        }
    } else if a.len() == 0 && b.len() == 0 {
        assert(a =~= b);
    }
}

/// The order is transitive.
pub proof fn lemma_bytes_lt_transitive(a: Seq<u8>, b: Seq<u8>, c: Seq<u8>)
    requires
        bytes_lt(a, b),
        bytes_lt(b, c),
    ensures
        bytes_lt(a, c),
    decreases a.len(),
{
    if a.len() > 0 && b.len() > 0 && c.len() > 0 && a[0] == b[0] && b[0] == c[0] {
        lemma_bytes_lt_transitive(a.drop_first(), b.drop_first(), c.drop_first());
    }
}

/// `a <= b < c` gives `a < c`.
pub proof fn lemma_bytes_le_lt(a: Seq<u8>, b: Seq<u8>, c: Seq<u8>)
    requires
        bytes_le(a, b),
        bytes_lt(b, c),
    ensures
        bytes_lt(a, c),
{
    if a != b {
        lemma_bytes_lt_transitive(a, b, c);
    }
}

/// `a < b <= c` gives `a < c`.
pub proof fn lemma_bytes_lt_le(a: Seq<u8>, b: Seq<u8>, c: Seq<u8>)
    requires
        bytes_lt(a, b),
        bytes_le(b, c),
    ensures
        bytes_lt(a, c),
{
    if b != c {
        lemma_bytes_lt_transitive(a, b, c);
    }
}

/// Compares two byte strings in lexicographic order.
pub fn compare_bytes(a: &Vec<u8>, b: &Vec<u8>) -> (r: Ordering)
    ensures
        r == Ordering::Less <==> bytes_lt(a@, b@),
        r == Ordering::Equal <==> a@ == b@,
        r == Ordering::Greater <==> bytes_lt(b@, a@),
{
    proof {
        lemma_bytes_trichotomy(a@, b@);
    }
    assert(a@.skip(0) =~= a@);
    assert(b@.skip(0) =~= b@);
    let mut i: usize = 0;
    while i < a.len() && i < b.len()
        invariant
            i <= a@.len(),
            i <= b@.len(),
            a@.subrange(0, i as int) == b@.subrange(0, i as int),
            bytes_lt(a@, b@) == bytes_lt(a@.skip(i as int), b@.skip(i as int)),
            bytes_lt(b@, a@) == bytes_lt(b@.skip(i as int), a@.skip(i as int)),
        decreases a@.len() - i,
    {
        if a[i] < b[i] {
            return Ordering::Less;
        }
        if a[i] > b[i] {
            return Ordering::Greater;
        }
        assert(a@.skip(i as int).drop_first() =~= a@.skip(i + 1));
        assert(b@.skip(i as int).drop_first() =~= b@.skip(i + 1));
        assert(a@.subrange(0, i + 1) =~= a@.subrange(0, i as int).push(a@[i as int]));
        assert(b@.subrange(0, i + 1) =~= b@.subrange(0, i as int).push(b@[i as int]));
        i = i + 1;
    }
    if a.len() < b.len() {
        Ordering::Less
    } else if b.len() < a.len() {
        Ordering::Greater
    } else {
        assert(a@ =~= a@.subrange(0, i as int));
        assert(b@ =~= b@.subrange(0, i as int));
        Ordering::Equal
    }
}

/// Where a byte string stands in a sorted list.
#[derive(Debug)]
pub enum SearchResult {
    /// Inserting the byte string here keeps the list sorted.
    AddAt(usize),
    /// An equal byte string is already here.
    IsAt(usize),
}

impl SearchResult {
    /// The position that either variant carries.
    pub open spec fn spec_index(&self) -> usize {
        match self {
            SearchResult::AddAt(index) => *index,
            SearchResult::IsAt(index) => *index,
        }
    }

    pub fn index(&self) -> (r: usize)
        ensures
            r == self.spec_index(),
    {
        match self {
            SearchResult::AddAt(index) => *index,
            SearchResult::IsAt(index) => *index,
        }
    }
}

/// What a search for `item` in the sorted `list` reports: an equal element's
/// position, or the position at which inserting `item` keeps the list sorted.
pub open spec fn search_result_fits(list: Seq<Seq<u8>>, item: Seq<u8>, r: SearchResult) -> bool {
    match r {
        SearchResult::IsAt(i) => i < list.len() && list[i as int] == item,
        SearchResult::AddAt(i) => {
            &&& i <= list.len()
            &&& forall|j: int| 0 <= j < i ==> bytes_lt(#[trigger] list[j], item)
            &&& forall|j: int| i <= j < list.len() ==> bytes_lt(item, #[trigger] list[j])
        },
    }
}

/// Returns the index where the item should be added so that the list remains sorted,
/// or the index where an identical copy of the item already exists.
///
/// Binary search: the list must be sorted.
pub fn search_list(list: &Vec<Vec<u8>>, item: &Vec<u8>) -> (r: SearchResult)
    requires
        sorted(byte_strings(list@)),
    ensures
        search_result_fits(byte_strings(list@), item@, r),
        r is AddAt <==> !byte_strings(list@).contains(item@),
{
    let ghost keys = byte_strings(list@);
    if list.len() == 0 {
        return SearchResult::AddAt(0);
    }
    let mut min_index: usize = 0;
    let len = list.len();
    let mut max_index: usize = len - 1;
    loop
        invariant
            len == list@.len(),
            keys == byte_strings(list@),
            sorted(keys),
            min_index <= max_index < list@.len(),
            forall|j: int| 0 <= j < min_index ==> bytes_lt(#[trigger] keys[j], item@),
            forall|j: int| max_index < j < keys.len() ==> bytes_lt(item@, #[trigger] keys[j]),
        decreases max_index - min_index,
    {
        let split_index = min_index + (max_index - min_index) / 2;
        let split_item = &list[split_index];
        if max_index - min_index >= 2 {
            match compare_bytes(split_item, item) {
                Ordering::Equal => {
                    let r = SearchResult::IsAt(split_index);
                    proof {
                        lemma_is_at_means_contained(keys, item@, r);
                    }
                    return r;
                },
                Ordering::Greater => {
                    assert forall|j: int| split_index - 1 < j < keys.len() implies bytes_lt(
                        item@,
                        #[trigger] keys[j],
                    ) by {
                        if j > split_index {
                            assert(bytes_le(keys[split_index as int], keys[j]));
                            lemma_bytes_lt_le(item@, keys[split_index as int], keys[j]);
                        }
                    }
                    max_index = split_index - 1;
                },
                Ordering::Less => {
                    assert forall|j: int| 0 <= j < split_index + 1 implies bytes_lt(
                        #[trigger] keys[j],
                        item@,
                    ) by {
                        if j < split_index {
                            assert(bytes_le(keys[j], keys[split_index as int]));
                            lemma_bytes_le_lt(keys[j], keys[split_index as int], item@);
                        }
                    }
                    min_index = split_index + 1;
                },
            }
        } else {
            let item1 = &list[min_index];
            let item2 = &list[max_index];
            proof {
                lemma_bytes_trichotomy(item@, keys[min_index as int]);
                lemma_bytes_trichotomy(item@, keys[max_index as int]);
            }
            let r = if matches!(compare_bytes(item, item1), Ordering::Equal) {
                SearchResult::IsAt(min_index)
            } else if matches!(compare_bytes(item, item2), Ordering::Equal) {
                SearchResult::IsAt(max_index)
            } else if matches!(compare_bytes(item, item1), Ordering::Less) {
                assert forall|j: int| min_index <= j < keys.len() implies bytes_lt(
                    item@,
                    #[trigger] keys[j],
                ) by {
                    if min_index < j <= max_index {
                        assert(bytes_le(keys[min_index as int], keys[j]));
                        lemma_bytes_lt_le(item@, keys[min_index as int], keys[j]);
                    }
                }
                SearchResult::AddAt(min_index)
            } else if matches!(compare_bytes(item, item2), Ordering::Less) {
                SearchResult::AddAt(max_index)
            } else {
                SearchResult::AddAt(max_index + 1)
            };
            proof {
                lemma_is_at_means_contained(keys, item@, r);
            }
            return r;
        }
    }
}

/// A search result that fits the list reports `AddAt` exactly when the item is absent.
proof fn lemma_is_at_means_contained(list: Seq<Seq<u8>>, item: Seq<u8>, r: SearchResult)
    requires
        search_result_fits(list, item, r),
    ensures
        r is AddAt <==> !list.contains(item),
{
    if let SearchResult::AddAt(i) = r {
        if list.contains(item) {
            let j = choose|j: int| 0 <= j < list.len() && list[j] == item;
            lemma_bytes_lt_irreflexive(item);
            if j < i {
                assert(bytes_lt(list[j], item));
            } else {
                assert(bytes_lt(item, list[j]));
            }
        }
    } else {
        if let SearchResult::IsAt(i) = r {
            assert(list[i as int] == item);
        }
    }
}

/// `indices` with each index at or after `at` moved one place up, as an
/// insertion at `at` moves the elements behind it.
pub open spec fn shifted(indices: Seq<usize>, at: usize) -> Seq<usize> {
    indices.map_values(|i: usize| if i >= at { (i + 1) as usize } else { i })
}

/// Holds each item once, keyed by the bytes that identify it, in the order of
/// those bytes; and remembers which stored item each addition resolved to.
///
/// `get_item(n)` gives back the item stored for the `n`-th call of
/// `add_if_unique` since `new()` (counting from 0).
pub struct UniqueList<T> {
    items: Vec<T>,
    identifying_bytes_list: Vec<Vec<u8>>,
    indices_in_added_order: Vec<usize>,
}

impl<T> UniqueList<T> {
    /// The stored items, in the order of their keys.
    pub closed spec fn stored(&self) -> Seq<T> {
        self.items@
    }

    /// The keys of the stored items, position for position.
    pub closed spec fn keys(&self) -> Seq<Seq<u8>> {
        byte_strings(self.identifying_bytes_list@)
    }

    /// For each addition, in order, the position of the stored item it resolved to.
    pub closed spec fn added(&self) -> Seq<usize> {
        self.indices_in_added_order@
    }

    /// The key given with the `i`-th addition.
    pub open spec fn added_key(&self, i: int) -> Seq<u8> {
        self.keys()[self.added()[i] as int]
    }

    /// One key per stored item, keys strictly sorted, each addition resolved to
    /// a stored item, and each stored item the result of some addition.
    pub open spec fn wf(&self) -> bool {
        &&& self.stored().len() == self.keys().len()
        &&& strictly_sorted(self.keys())
        &&& forall|i: int| 0 <= i < self.added().len() ==> #[trigger] self.added()[i] < self.stored().len()
        &&& forall|k: int| 0 <= k < self.stored().len() ==> #[trigger] self.is_recorded(k)
    }

    /// Some addition resolved to the stored item at position `k`.
    pub open spec fn is_recorded(&self, k: int) -> bool {
        exists|i: int| 0 <= i < self.added().len() && #[trigger] self.added()[i] == k
    }

    pub fn new() -> (r: Self)
        ensures
            r.wf(),
            r.stored() == Seq::<T>::empty(),
            r.keys() == Seq::<Seq<u8>>::empty(),
            r.added() == Seq::<usize>::empty(),
    {
        let r = UniqueList {
            items: Vec::new(),
            identifying_bytes_list: Vec::new(),
            indices_in_added_order: Vec::new(),
        };
        assert(r.keys() =~= Seq::<Seq<u8>>::empty());
        r
    }

    pub fn items(&self) -> (r: &Vec<T>)
        ensures
            r@ == self.stored(),
    {
        &self.items
    }

    /// How many additions were made.
    pub fn added_count(&self) -> (r: usize)
        ensures
            r == self.added().len(),
    {
        self.indices_in_added_order.len()
    }

    /// The position among the stored items of the one that the addition numbered
    /// `add_index` resolved to.
    pub fn stored_index(&self, add_index: usize) -> (r: usize)
        requires
            add_index < self.added().len(),
        ensures
            r == self.added()[add_index as int],
    {
        self.indices_in_added_order[add_index]
    }

    /// The item stored for the addition numbered `add_index` (the first addition is 0).
    pub fn get_item(&self, add_index: usize) -> (r: &T)
        requires
            self.wf(),
            add_index < self.added().len(),
        ensures
            *r == self.stored()[self.added()[add_index as int] as int],
    {
        let items_index = self.indices_in_added_order[add_index];
        &self.items[items_index]
    }

    /// Stores `item` under `identifying_bytes` unless an item with equal bytes is
    /// stored already; either way records the stored item that this addition
    /// resolved to.
    pub fn add_if_unique(&mut self, item: T, identifying_bytes: Vec<u8>)
        requires
            old(self).wf(),
        ensures
            final(self).wf(),
            final(self).added().len() == old(self).added().len() + 1,
            final(self).added_key(old(self).added().len() as int) == identifying_bytes@,
            forall|i: int| 0 <= i < old(self).added().len() ==> #[trigger] final(self).added_key(i) == old(self).added_key(i),
            old(self).keys().contains(identifying_bytes@) ==> {
                &&& final(self).stored() == old(self).stored()
                &&& final(self).keys() == old(self).keys()
                &&& final(self).added() == old(self).added().push(final(self).added().last())
            },
            !old(self).keys().contains(identifying_bytes@) ==> {
                let at = final(self).added().last();
                &&& final(self).keys() == old(self).keys().insert(at as int, identifying_bytes@)
                &&& final(self).stored() == old(self).stored().insert(at as int, item)
                &&& final(self).added() == shifted(old(self).added(), at).push(at)
            },
    {
        let ghost old_keys = self.keys();
        let ghost old_added = self.added();
        let ghost key = identifying_bytes@;
        proof {
            assert forall|i: int, j: int| 0 <= i < j < old_keys.len() implies #[trigger] bytes_le(old_keys[i], old_keys[j]) by {
                assert(bytes_lt(old_keys[i], old_keys[j]));
            }
        }
        let stored_count = self.items.len();
        let search_result = search_list(&self.identifying_bytes_list, &identifying_bytes);
        if let SearchResult::AddAt(inserting_index) = search_result {
            self.identifying_bytes_list.insert(inserting_index, identifying_bytes);
            self.items.insert(inserting_index, item);
            self.shift_indices(inserting_index);
            proof {
                assert(self.keys() =~= old_keys.insert(inserting_index as int, key));
                lemma_insert_keeps_strictly_sorted(old_keys, key, inserting_index as int);
            }
        }
        self.indices_in_added_order.push(search_result.index());
        proof {
            let at = search_result.spec_index();
            let new_added = self.added();
            assert(new_added.last() == at);
            if search_result is AddAt {
                assert(self.keys() == old_keys.insert(at as int, key));
                assert forall|i: int| 0 <= i < old_added.len() implies #[trigger] self.added_key(i) == old_keys[old_added[i] as int] by {
                    assert(new_added[i] == shifted(old_added, at)[i]);
                    assert(old_added[i] < stored_count);
                    if old_added[i] >= at {
                        assert(self.keys()[new_added[i] as int] == old_keys[old_added[i] as int]);
                    } else {
                        assert(self.keys()[new_added[i] as int] == old_keys[old_added[i] as int]);
                    }
                }
                assert forall|k: int| 0 <= k < self.stored().len() implies #[trigger] self.is_recorded(k) by {
                    if k == at {
                        assert(new_added[old_added.len() as int] == k);
                    } else {
                        let k0 = if k < at { k } else { k - 1 };
                        assert(old(self).is_recorded(k0));
                        let i0 = choose|i: int| 0 <= i < old_added.len() && #[trigger] old_added[i] == k0;
                        assert(new_added[i0] == shifted(old_added, at)[i0]);
                    }
                }
            } else {
                assert forall|i: int| 0 <= i < old_added.len() implies #[trigger] self.added_key(i) == old_keys[old_added[i] as int] by {
                    assert(new_added[i] == old_added[i]);
                }
                assert forall|k: int| 0 <= k < self.stored().len() implies #[trigger] self.is_recorded(k) by {
                    assert(old(self).is_recorded(k));
                    let i0 = choose|i: int| 0 <= i < old_added.len() && #[trigger] old_added[i] == k;
                    assert(new_added[i0] == old_added[i0]);
                }
                assert(new_added =~= old_added.push(at));
            }
        }
    }

    /// Moves each recorded position at or after `insertion_index` one place up,
    /// after an item was inserted there.
    fn shift_indices(&mut self, insertion_index: usize)
        requires
            forall|i: int| 0 <= i < old(self).added().len() ==> #[trigger] old(self).added()[i] < usize::MAX,
        ensures
            final(self).items == old(self).items,
            final(self).identifying_bytes_list == old(self).identifying_bytes_list,
            final(self).added() == shifted(old(self).added(), insertion_index),
    {
        let mut shifted_indices: Vec<usize> = Vec::new();
        let n = self.indices_in_added_order.len();
        let mut k: usize = 0;
        assert(self.indices_in_added_order@ == old(self).added());
        while k < n
            invariant
                n == self.indices_in_added_order@.len(),
                k <= n,
                forall|i: int| 0 <= i < n ==> #[trigger] self.indices_in_added_order@[i] < usize::MAX,
                shifted_indices@ == shifted(self.indices_in_added_order@, insertion_index).take(k as int),
            decreases n - k,
        {
            let index = self.indices_in_added_order[k];
            let moved = if index >= insertion_index {
                index + 1
            } else {
                index
            };
            shifted_indices.push(moved);
            k = k + 1;
            assert(shifted_indices@ =~= shifted(self.indices_in_added_order@, insertion_index).take(k as int));
        }
        assert(shifted_indices@ =~= shifted(self.indices_in_added_order@, insertion_index));
        self.indices_in_added_order = shifted_indices;
    }
}

/// Inserting a key at the position that a search reported keeps the keys strictly sorted.
proof fn lemma_insert_keeps_strictly_sorted(keys: Seq<Seq<u8>>, key: Seq<u8>, at: int)
    requires
        strictly_sorted(keys),
        0 <= at <= keys.len(),
        forall|j: int| 0 <= j < at ==> bytes_lt(#[trigger] keys[j], key),
        forall|j: int| at <= j < keys.len() ==> bytes_lt(key, #[trigger] keys[j]),
    ensures
        strictly_sorted(keys.insert(at, key)),
{
    let s = keys.insert(at, key);
    assert forall|i: int, j: int| 0 <= i < j < s.len() implies #[trigger] bytes_lt(s[i], s[j]) by {
        if i < at && j == at {
        } else if i < at && j > at {
            assert(s[j] == keys[j - 1]);
        } else if i == at {
            assert(s[j] == keys[j - 1]);
        } else if j < at {
        } else {
            assert(s[i] == keys[i - 1] && s[j] == keys[j - 1]);
        }
    }
}

} // verus!
