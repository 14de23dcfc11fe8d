//! Iteration over the elements of a [RwStore](crate::RwStore).

use vstd::prelude::*;

use crate::bucket;
use crate::bucket::Bucket;
use crate::id;
use crate::id::Id;
use crate::rwstore_id::RwStoreId;
use crate::store::{RwStore, BUCKET_COUNT};
use crate::util::pow2;
use crate::util::sum;

verus! {

/// The addresses of a bucket that are visited from the newest block to the oldest one, where the
/// newest block has `size` slots of which the first `last_slot` are visited, from the last logical
/// slot of each block to the first one.
pub open spec fn addresses(size: u32, last_slot: u32) -> Seq<u32>
    decreases size, last_slot,
{
    if last_slot > 0 {
        seq![(size - 1 + pow2::scramble((last_slot - 1) as u32, size)) as u32] + addresses(
            size,
            (last_slot - 1) as u32,
        )
    } else if size <= 1 {
        Seq::empty()
    } else {
        addresses(size / 2, size / 2)
    }
}

/// Whether an address is that of one of the first `last_slot` logical slots of a block of `size`
/// slots, or of a slot of one of the blocks before it.
pub open spec fn is_visited(size: u32, last_slot: u32, address: int) -> bool {
    &&& 0 <= address < 2 * size - 1
    &&& address >= size - 1 ==> pow2::unscramble((address - (size - 1)) as u32, size) < last_slot
}

/// Every slot is visited exactly once.
pub proof fn law_addresses(size: u32, last_slot: u32)
    requires
        last_slot <= size,
        size == 0 || pow2::is_power_of_two(size),
    ensures
        addresses(size, last_slot).no_duplicates(),
        forall|a: u32|
            #[trigger] addresses(size, last_slot).contains(a) <==> is_visited(
                size,
                last_slot,
                a as int,
            ),
        addresses(size, last_slot).len() == if size == 0 {
            0
        } else {
            size - 1 + last_slot
        },
    decreases size, last_slot,
{
    let all = addresses(size, last_slot);
    if last_slot > 0 {
        pow2::lemma_scramble_bounded((last_slot - 1) as u32, size);
        pow2::lemma_scramble_surjective((last_slot - 1) as u32, size);
        law_addresses(size, (last_slot - 1) as u32);
        let first = (size - 1 + pow2::scramble((last_slot - 1) as u32, size)) as u32;
        let rest = addresses(size, (last_slot - 1) as u32);
        assert(all[0] == first);
        assert(!rest.contains(first));
        assert forall|a: u32| #[trigger] all.contains(a) <==> is_visited(
            size,
            last_slot,
            a as int,
        ) by {
            assert(all.contains(a) <==> a == first || rest.contains(a)) by {
                if rest.contains(a) {
                    let k = choose|k: int| 0 <= k < rest.len() && rest[k] == a;
                    assert(all[k + 1] == a);
                }
                if all.contains(a) {
                    let k = choose|k: int| 0 <= k < all.len() && all[k] == a;
                    assert(k == 0 || rest[k - 1] == a);
                }
            }
            if a >= size - 1 && a < 2 * size - 1 {
                pow2::lemma_scramble_surjective((a - (size - 1)) as u32, size);
            }
        }
        assert(all.no_duplicates()) by {
            assert forall|i: int, j: int|
                0 <= i < all.len() && 0 <= j < all.len() && i != j implies all[i] != all[j] by {
                if i == 0 {
                    assert(rest[j - 1] == all[j]);
                    assert(rest.contains(all[j]));
                } else if j == 0 {
                    assert(rest[i - 1] == all[i]);
                    assert(rest.contains(all[i]));
                } else {
                    assert(rest[i - 1] == all[i] && rest[j - 1] == all[j]);
                }
            }
        }
    } else if size > 1 {
        pow2::lemma_half(size);
        law_addresses(size / 2, size / 2);
        assert forall|a: u32| #[trigger] all.contains(a) <==> is_visited(
            size,
            last_slot,
            a as int,
        ) by {
            if a < size - 1 && a >= size / 2 - 1 {
                pow2::lemma_scramble_bounded((a - (size / 2 - 1)) as u32, size / 2);
            }
        }
    }
}

/// Visits the addresses of a bucket.
pub struct GenIter {
    last_slot: u32,
    // The number of slots of the block that is being visited, or zero if there is none
    current_block: u32,
}

impl GenIter {
    pub closed spec fn wf(self) -> bool {
        &&& self.last_slot <= self.current_block
        &&& self.current_block == 0 || pow2::is_power_of_two(self.current_block)
    }

    /// The addresses that are still to be visited.
    pub closed spec fn remaining(self) -> Seq<u32> {
        addresses(self.current_block, self.last_slot)
    }

    /// The number of slots of the block that is being visited.
    pub closed spec fn block_size(self) -> u32 {
        self.current_block
    }

    /// Starts at the given block, of whose logical slots the first `last_slot` were handed out.
    pub fn new(last_slot: u32, current_block: u32) -> (iter: Self)
        requires
            current_block == 0 || pow2::is_power_of_two(current_block),
        ensures
            iter.wf(),
            iter.block_size() == current_block,
            iter.remaining() == addresses(
                current_block,
                if last_slot <= current_block {
                    last_slot
                } else {
                    current_block
                },
            ),
    {
        let last_slot = if last_slot <= current_block {
            last_slot
        } else {
            current_block
        };
        Self { last_slot, current_block }
    }

    /// The next address, if there is one left.
    pub fn next(&mut self) -> (address: Option<u32>)
        requires
            old(self).wf(),
        ensures
            final(self).wf(),
            final(self).block_size() <= old(self).block_size(),
            old(self).remaining().len() == 0 ==> address is None && final(self).remaining() == old(
                self).remaining(),
            old(self).remaining().len() > 0 ==> address == Some(old(self).remaining()[0]) && final(
                self).remaining() == old(self).remaining().drop_first(),
    {
        proof {
            law_addresses(self.current_block, self.last_slot);
        }
        if self.last_slot == 0 {
            if self.current_block <= 1 {
                return None;
            }
            proof {
                pow2::lemma_half(self.current_block);
            }
            self.current_block = self.current_block / 2;
            self.last_slot = self.current_block;
        }
        let slot = self.last_slot - 1;
        proof {
            pow2::lemma_scramble_bounded(slot, self.current_block);
            assert(old(self).remaining() =~= addresses(self.current_block, self.last_slot));
            assert(addresses(self.current_block, self.last_slot).drop_first() =~= addresses(
                self.current_block,
                slot,
            ));
        }
        self.last_slot = slot;
        Some(self.current_block - 1 + pow2::scramble_slot(slot, self.current_block))
    }

    /// The number of addresses that are still to be visited.
    pub fn len(&self) -> (len: u32)
        requires
            self.wf(),
            self.block_size() < 0x8000_0000,
        ensures
            len == self.remaining().len(),
    {
        proof {
            law_addresses(self.current_block, self.last_slot);
            if self.current_block > 0 {
                bucket::law_total_size(self.current_block);
            } else {
                assert(bucket::total_size_from(1, 0) == 0);
            }
        }
        let allocated_size = bucket::head_size_to_total_size(self.current_block);
        allocated_size - (self.current_block - self.last_slot)
    }
}

/// The slots with the given addresses of a bucket.
pub open spec fn places_in(bucket: u32, addresses: Seq<u32>) -> Seq<(u32, u32)> {
    Seq::new(addresses.len(), |i: int| (bucket, addresses[i]))
}

/// The slots that were ever handed out for an element, from the given bucket on, in the order in
/// which they are visited.
pub open spec fn places_from<Element>(buckets: Seq<Bucket<Element>>, b: int) -> Seq<(u32, u32)>
    decreases BUCKET_COUNT - b,
{
    if b >= BUCKET_COUNT {
        Seq::empty()
    } else {
        let inner = buckets[b].inner();
        places_in(b as u32, addresses(inner.head_size(), inner.unused())) + places_from(
            buckets,
            b + 1,
        )
    }
}

/// The elements in the given slots, with their IDs.
pub open spec fn elements_in<Element>(
    buckets: Seq<Bucket<Element>>,
    store_id: RwStoreId,
    places: Seq<(u32, u32)>,
) -> Seq<(Id, Element)>
    decreases places.len(),
{
    if places.len() == 0 {
        Seq::empty()
    } else {
        let (b, a) = places[0];
        let slot = buckets[b as int].at(a as int);
        let rest = elements_in(buckets, store_id, places.drop_first());
        if slot.header.occupied() {
            seq![(Id::spec_new(slot.header.id, b, a, store_id), slot.value->0)] + rest
        } else {
            rest
        }
    }
}

/// The elements of a store with their IDs, in the order in which they are visited.
pub open spec fn elements<Element>(store: RwStore<Element>) -> Seq<(Id, Element)> {
    elements_in(store.buckets(), store.spec_store_id(), places_from(store.buckets(), 0))
}

/// The elements in slots that are the same are the same.
proof fn lemma_elements_equal<Element>(
    before: Seq<Bucket<Element>>,
    after: Seq<Bucket<Element>>,
    store_id: RwStoreId,
    places: Seq<(u32, u32)>,
)
    requires
        forall|i: int|
            0 <= i < places.len() ==> before[(#[trigger] places[i]).0 as int].at(places[i].1 as int)
                == after[places[i].0 as int].at(places[i].1 as int),
    ensures
        elements_in(before, store_id, places) == elements_in(after, store_id, places),
    decreases places.len(),
{
    if places.len() > 0 {
        let rest = places.drop_first();
        assert forall|i: int| 0 <= i < rest.len() implies before[(
        #[trigger] rest[i]).0 as int].at(rest[i].1 as int) == after[rest[i].0 as int].at(
            rest[i].1 as int,
        ) by {
            assert(rest[i] == places[i + 1]);
        }
        lemma_elements_equal(before, after, store_id, rest);
        assert(places[0] == places[0]);
    }
}

/// Buckets of the same size have the same slots.
proof fn lemma_places_equal<Element>(
    before: Seq<Bucket<Element>>,
    after: Seq<Bucket<Element>>,
    b: int,
)
    requires
        0 <= b,
        forall|i: int|
            0 <= i < BUCKET_COUNT ==> {
                let bucket = #[trigger] after[i];
                &&& bucket.inner().head_size() == before[i].inner().head_size()
                &&& bucket.inner().unused() == before[i].inner().unused()
            },
    ensures
        places_from(before, b) == places_from(after, b),
    decreases BUCKET_COUNT - b,
{
    if b < BUCKET_COUNT {
        assert(after[b].inner().head_size() == before[b].inner().head_size());
        lemma_places_equal(before, after, b + 1);
    }
}

/// All buckets are there, well-formed and of the given store.
pub open spec fn buckets_wf<Element>(buckets: Seq<Bucket<Element>>, store_id: RwStoreId) -> bool {
    &&& buckets.len() == BUCKET_COUNT
    &&& forall|b: int|
        0 <= b < BUCKET_COUNT ==> {
            let bucket = #[trigger] buckets[b];
            bucket.wf() && bucket.inner().store_id() == store_id
        }
}

/// The slots from the given bucket on are those that were ever handed out for an element, each of
/// them once.
proof fn lemma_places<Element>(buckets: Seq<Bucket<Element>>, store_id: RwStoreId, b: int)
    requires
        buckets_wf(buckets, store_id),
        0 <= b <= BUCKET_COUNT,
    ensures
        places_from(buckets, b).no_duplicates(),
        forall|p: (u32, u32)|
            #[trigger] places_from(buckets, b).contains(p) <==> b <= p.0 < BUCKET_COUNT
                && buckets[p.0 as int].touched(p.1 as int),
    decreases BUCKET_COUNT - b,
{
    if b < BUCKET_COUNT {
        lemma_places(buckets, store_id, b + 1);
        let bucket = buckets[b];
        assert(bucket.wf());
        bucket.lemma_wf();
        let (size, unused) = (bucket.inner().head_size(), bucket.inner().unused());
        law_addresses(size, unused);
        let here = places_in(b as u32, addresses(size, unused));
        let there = places_from(buckets, b + 1);
        let all = places_from(buckets, b);
        assert forall|p: (u32, u32)| #[trigger] here.contains(p) <==> p.0 == b
            && buckets[b].touched(p.1 as int) by {
            if here.contains(p) {
                let k = choose|k: int| 0 <= k < here.len() && here[k] == p;
                assert(addresses(size, unused).contains(p.1));
            }
            if p.0 == b && buckets[b].touched(p.1 as int) {
                assert(addresses(size, unused).contains(p.1));
                let k = choose|k: int|
                    0 <= k < addresses(size, unused).len() && addresses(size, unused)[k] == p.1;
                assert(here[k] == p);
            }
        }
        assert forall|p: (u32, u32)| #[trigger] all.contains(p) <==> here.contains(p)
            || there.contains(p) by {
            if here.contains(p) {
                let k = choose|k: int| 0 <= k < here.len() && here[k] == p;
                assert(all[k] == p);
            }
            if there.contains(p) {
                let k = choose|k: int| 0 <= k < there.len() && there[k] == p;
                assert(all[here.len() + k] == p);
            }
            if all.contains(p) {
                let k = choose|k: int| 0 <= k < all.len() && all[k] == p;
                assert(if k < here.len() {
                    here[k] == p
                } else {
                    there[k - here.len()] == p
                });
            }
        }
        assert forall|i: int, j: int| 0 <= i < j < all.len() implies all[i] != all[j] by {
            if j < here.len() {
                assert(all[i] == here[i] && all[j] == here[j]);
                assert(addresses(size, unused)[i] != addresses(size, unused)[j]);
            } else if i >= here.len() {
                assert(all[i] == there[i - here.len()] && all[j] == there[j - here.len()]);
            } else {
                assert(all[i] == here[i]);
                assert(all[j] == there[j - here.len()]);
                assert(there.contains(all[j]));
            }
        }
    }
}

/// There are as many slots from the given bucket on as were ever handed out for an element there.
proof fn lemma_places_len<Element>(buckets: Seq<Bucket<Element>>, store_id: RwStoreId, b: int)
    requires
        buckets_wf(buckets, store_id),
        0 <= b <= BUCKET_COUNT,
    ensures
        ({
            let touched = |i: int| buckets[i].touched_capacity();
            places_from(buckets, b).len() + sum::sum(touched, b) == sum::sum(
                touched,
                BUCKET_COUNT as int,
            )
        }),
    decreases BUCKET_COUNT - b,
{
    if b < BUCKET_COUNT {
        lemma_places_len(buckets, store_id, b + 1);
        let bucket = buckets[b];
        assert(bucket.wf());
        bucket.lemma_wf();
        law_addresses(bucket.inner().head_size(), bucket.inner().unused());
    }
}

/// The element in a slot, with its ID.
pub open spec fn element_at<Element>(
    buckets: Seq<Bucket<Element>>,
    store_id: RwStoreId,
    place: (u32, u32),
) -> (Id, Element) {
    let slot = buckets[place.0 as int].at(place.1 as int);
    (Id::spec_new(slot.header.id, place.0, place.1, store_id), slot.value->0)
}

/// The slot that an ID refers to.
pub open spec fn place_of(id: Id) -> (u32, u32) {
    (id.spec_bucket_id(), id.spec_position())
}

/// Every element is in one of the given slots, and every one of these slots that is occupied holds
/// one of the elements.
proof fn lemma_elements_in<Element>(
    buckets: Seq<Bucket<Element>>,
    store_id: RwStoreId,
    places: Seq<(u32, u32)>,
)
    requires
        places.no_duplicates(),
    ensures
        ({
            let all = elements_in(buckets, store_id, places);
            &&& forall|i: int|
                0 <= i < all.len() ==> {
                    let place = place_of((#[trigger] all[i]).0);
                    &&& places.contains(place)
                    &&& buckets[place.0 as int].at(place.1 as int).header.occupied()
                    &&& all[i] == element_at(buckets, store_id, place)
                }
            &&& forall|i: int, j: int|
                0 <= i < j < all.len() ==> place_of((#[trigger] all[i]).0) != place_of(
                    (#[trigger] all[j]).0,
                )
            &&& forall|k: int|
                0 <= k < places.len() && buckets[(#[trigger] places[k]).0 as int].at(
                    places[k].1 as int,
                ).header.occupied() ==> all.contains(element_at(buckets, store_id, places[k]))
        }),
    decreases places.len(),
{
    broadcast use id::law_id_parts;

    let all = elements_in(buckets, store_id, places);
    if places.len() > 0 {
        let rest_places = places.drop_first();
        let rest = elements_in(buckets, store_id, rest_places);
        lemma_elements_in(buckets, store_id, rest_places);
        let first = places[0];
        let occupied = buckets[first.0 as int].at(first.1 as int).header.occupied();
        let offset: int = if occupied {
            1
        } else {
            0
        };
        assert(all.len() == rest.len() + offset);
        assert forall|p: (u32, u32)| #[trigger] rest_places.contains(p) implies places.contains(p)
            && p != first by {
            let k = choose|k: int| 0 <= k < rest_places.len() && rest_places[k] == p;
            assert(places[k + 1] == p);
        }
        assert forall|i: int| 0 <= i < all.len() implies {
            let place = place_of((#[trigger] all[i]).0);
            &&& places.contains(place)
            &&& buckets[place.0 as int].at(place.1 as int).header.occupied()
            &&& all[i] == element_at(buckets, store_id, place)
        } by {
            if i < offset {
                assert(place_of(all[i].0) == first);
            } else {
                assert(all[i] == rest[i - offset]);
            }
        }
        assert forall|i: int, j: int| 0 <= i < j < all.len() implies place_of(
            (#[trigger] all[i]).0,
        ) != place_of((#[trigger] all[j]).0) by {
            assert(all[j] == rest[j - offset]);
            if i < offset {
                assert(place_of(all[i].0) == first);
                assert(rest_places.contains(place_of(all[j].0)));
            } else {
                assert(all[i] == rest[i - offset]);
            }
        }
        assert forall|k: int|
            0 <= k < places.len() && buckets[(#[trigger] places[k]).0 as int].at(
                places[k].1 as int,
            ).header.occupied() implies all.contains(element_at(buckets, store_id, places[k])) by {
            if k == 0 {
                assert(all[0] == element_at(buckets, store_id, places[k]));
            } else {
                assert(rest_places[k - 1] == places[k]);
                let element = element_at(buckets, store_id, places[k]);
                assert(rest.contains(element));
                let n = choose|n: int| 0 <= n < rest.len() && rest[n] == element;
                assert(all[n + offset] == element);
            }
        }
    }
}

/// There are no more elements than slots.
proof fn lemma_no_more_elements_than_places<Element>(
    buckets: Seq<Bucket<Element>>,
    store_id: RwStoreId,
    places: Seq<(u32, u32)>,
)
    ensures
        elements_in(buckets, store_id, places).len() <= places.len(),
    decreases places.len(),
{
    if places.len() > 0 {
        lemma_no_more_elements_than_places(buckets, store_id, places.drop_first());
    }
}

/// Iteration visits each element still present in the store, and visits it exactly once.
pub proof fn law_iteration_visits_every_element_once<Element>(store: RwStore<Element>)
    requires
        store.wf(),
    ensures
        forall|i: int|
            0 <= i < elements(store).len() ==> store@.contains_pair(
                (#[trigger] elements(store)[i]).0,
                elements(store)[i].1,
            ),
        forall|i: int, j: int|
            0 <= i < j < elements(store).len() ==> (#[trigger] elements(store)[i]).0 != (
            #[trigger] elements(store)[j]).0,
        forall|id: Id| #[trigger]
            store@.contains_key(id) ==> elements(store).contains((id, store@[id])),
        elements(store).len() == store@.len(),
{
    broadcast use id::law_id_parts;

    let buckets = store.buckets();
    let store_id = store.spec_store_id();
    let places = places_from(buckets, 0);
    let all = elements(store);
    lemma_places(buckets, store_id, 0);
    lemma_elements_in(buckets, store_id, places);
    assert forall|i: int| 0 <= i < all.len() implies store@.contains_pair(
        (#[trigger] all[i]).0,
        all[i].1,
    ) by {
        let place = place_of(all[i].0);
        assert(places.contains(place));
        assert(store.touched(place.0 as int, place.1 as int));
        assert(store.contains(all[i].0));
    }
    assert forall|id: Id| #[trigger] store@.contains_key(id) implies all.contains((id, store@[id])) by {
        store.lemma_contains_issued(id);
        store.lemma_id_at(id);
        let place = place_of(id);
        assert(places.contains(place));
        let k = choose|k: int| 0 <= k < places.len() && places[k] == place;
        assert(element_at(buckets, store_id, places[k]) == (id, store@[id]));
    }
    let ids = all.map_values(|element: (Id, Element)| element.0);
    assert(ids.no_duplicates());
    ids.unique_seq_to_set();
    assert(ids.to_set() =~= store@.dom()) by {
        assert forall|id: Id| #[trigger] store@.contains_key(id) implies ids.contains(id) by {
            assert(all.contains((id, store@[id])));
            let n = choose|n: int| 0 <= n < all.len() && all[n] == (id, store@[id]);
            assert(ids[n] == id);
        }
        assert forall|id: Id| #[trigger] ids.contains(id) implies store@.contains_key(id) by {
            let n = choose|n: int| 0 <= n < ids.len() && ids[n] == id;
            assert(all[n].0 == id);
        }
    }
}

/// Whether `after` are the slots that are still to be visited once those in `before` were visited up
/// to the given one.
pub open spec fn visits_up_to(
    before: Seq<(u32, u32)>,
    place: (u32, u32),
    after: Seq<(u32, u32)>,
) -> bool {
    exists|k: int|
        0 <= k < before.len() && #[trigger] before[k] == place && after == before.subrange(
            k + 1,
            before.len() as int,
        )
}

/// An owned iterator over an [RwStore](crate::RwStore).
pub struct IntoIter<Element> {
    buckets: [Bucket<Element>; 16],
    store_id: RwStoreId,
    bucket_id: u32,
    iter: GenIter,
}

impl<Element> IntoIter<Element> {
    /// The slots that are still to be visited.
    pub closed spec fn places(self) -> Seq<(u32, u32)> {
        places_in(self.bucket_id, self.iter.remaining()) + places_from(
            self.buckets@,
            self.bucket_id + 1,
        )
    }

    /// The elements that are still to be visited, with their IDs.
    pub closed spec fn remaining(self) -> Seq<(Id, Element)> {
        elements_in(self.buckets@, self.store_id, self.places())
    }

    pub closed spec fn wf(self) -> bool {
        &&& buckets_wf(self.buckets@, self.store_id)
        &&& self.bucket_id < BUCKET_COUNT
        &&& self.iter.wf()
        &&& self.iter.remaining().no_duplicates()
        &&& forall|i: int|
            0 <= i < self.iter.remaining().len()
                ==> self.buckets@[self.bucket_id as int].touched(
                #[trigger] self.iter.remaining()[i] as int,
            )
        &&& forall|b: int, a: int|
            0 <= b < BUCKET_COUNT && self.buckets@[b].has_address(a) ==> !(
            #[trigger] self.buckets@[b].at(a)).header.locked()
        &&& self.iter.block_size() <= self.buckets@[self.bucket_id as int].inner().head_size()
        &&& self.places().len() <= u32::MAX
    }

    /// The number of slots that are still to be visited.
    pub open spec fn slots_left(self) -> nat {
        self.places().len()
    }

    /// Whether the number of slots of every bucket can be told.
    pub closed spec fn sizes_known(self) -> bool {
        forall|b: int|
            0 <= b < BUCKET_COUNT ==> (#[trigger] self.buckets@[b]).inner().head_size()
                < 0x8000_0000
    }

    /// Creates an owned iterator over an [RwStore](crate::RwStore), none of whose elements may be
    /// locked.
    pub fn new(store: RwStore<Element>) -> (iter: Self)
        requires
            store.wf(),
            store.nothing_locked(),
        ensures
            iter.wf(),
            iter.remaining() == elements(store),
            iter.places() == places_from(store.buckets(), 0),
            iter.slots_left() == store.touched_capacity(),
            iter.sizes_known() == store.sizes_known(),
    {
        proof {
            store.lemma_nothing_locked();
            store.lemma_touched_capacity();
            lemma_places_len(store.buckets(), store.spec_store_id(), 0);
            let bucket = store.buckets()[0];
            assert(bucket.wf());
            bucket.lemma_wf();
            law_addresses(bucket.inner().head_size(), bucket.inner().unused());
        }
        let store_id = store.id();
        let iter = store.bucket_iter(0);
        let buckets = store.into_buckets();
        let result = Self { buckets, store_id, bucket_id: 0, iter };
        proof {
            assert forall|i: int| 0 <= i < iter.remaining().len() implies buckets@[0].touched(
                #[trigger] iter.remaining()[i] as int,
            ) by {
                assert(iter.remaining().contains(iter.remaining()[i]));
            }
            assert(result.places() =~= places_from(store.buckets(), 0));
        }
        result
    }

    /// What follows if the next slot is visited and its element is taken, if there is one.
    proof fn lemma_taken(self, other: Self)
        requires
            self.wf(),
            self.iter.remaining().len() > 0,
            other.store_id == self.store_id,
            other.bucket_id == self.bucket_id,
            other.iter.wf(),
            other.iter.block_size() <= self.iter.block_size(),
            other.iter.remaining() == self.iter.remaining().drop_first(),
            other.buckets@.len() == self.buckets@.len(),
            forall|b: int|
                0 <= b < BUCKET_COUNT && b != self.bucket_id ==> #[trigger] other.buckets@[b]
                    == self.buckets@[b],
            ({
                let address = self.iter.remaining()[0] as int;
                let before = self.buckets@[self.bucket_id as int];
                let after = other.buckets@[self.bucket_id as int];
                &&& before.differs_in_slot(address, after)
                &&& !after.at(address).header.locked()
            }),
        ensures
            other.wf(),
            other.sizes_known() == self.sizes_known(),
            self.places().len() > 0,
            self.places()[0] == (self.bucket_id, self.iter.remaining()[0]),
            other.places() == self.places().drop_first(),
            ({
                let place = (self.bucket_id, self.iter.remaining()[0]);
                self.remaining() == if self.buckets@[place.0 as int].at(
                    place.1 as int,
                ).header.occupied() {
                    seq![element_at(self.buckets@, self.store_id, place)] + other.remaining()
                } else {
                    other.remaining()
                }
            }),
    {
        let address = self.iter.remaining()[0];
        let before = self.buckets@[self.bucket_id as int];
        let after = other.buckets@[self.bucket_id as int];
        assert(before.wf());
        assert(before.touched(address as int));
        before.lemma_differs_in_slot(address as int, after);
        assert forall|b: int| 0 <= b < BUCKET_COUNT implies {
            let bucket = #[trigger] other.buckets@[b];
            bucket.wf() && bucket.inner().store_id() == other.store_id
        } by {
            assert(self.buckets@[b].wf());
        }
        let before_addresses = self.iter.remaining();
        let after_addresses = other.iter.remaining();
        assert forall|i: int| 0 <= i < after_addresses.len() implies after.touched(
            #[trigger] after_addresses[i] as int,
        ) by {
            assert(after_addresses[i] == before_addresses[i + 1]);
        }
        assert forall|b: int, a: int|
            0 <= b < BUCKET_COUNT && other.buckets@[b].has_address(a) implies !(
        #[trigger] other.buckets@[b].at(a)).header.locked() by {
            assert(self.buckets@[b].has_address(a));
            if b != self.bucket_id || a != address {
                assert(other.buckets@[b].at(a) == self.buckets@[b].at(a));
            }
        }
        lemma_places_equal(self.buckets@, other.buckets@, self.bucket_id + 1);
        lemma_places(self.buckets@, self.store_id, self.bucket_id + 1);
        let places = other.places();
        assert(self.places().drop_first() =~= places);
        assert forall|i: int| 0 <= i < places.len() implies self.buckets@[(
        #[trigger] places[i]).0 as int].at(places[i].1 as int)
            == other.buckets@[places[i].0 as int].at(places[i].1 as int) by {
            if i < after_addresses.len() {
                assert(places[i] == (self.bucket_id, after_addresses[i]));
                assert(after_addresses[i] == before_addresses[i + 1]);
                assert(before_addresses[0] != before_addresses[i + 1]);
                assert(before.touched(before_addresses[i + 1] as int));
            } else {
                let later = places_from(self.buckets@, self.bucket_id + 1);
                assert(places[i] == later[i - after_addresses.len()]);
                assert(later.contains(places[i]));
            }
        }
        lemma_elements_equal(self.buckets@, other.buckets@, self.store_id, places);
        assert(self.places()[0] == (self.bucket_id, address));
        assert(self.sizes_known() ==> other.sizes_known()) by {
            assert(forall|b: int|
                0 <= b < BUCKET_COUNT ==> (#[trigger] other.buckets@[b]).inner().head_size()
                    == self.buckets@[b].inner().head_size());
        }
        assert(other.sizes_known() ==> self.sizes_known()) by {
            assert(forall|b: int|
                0 <= b < BUCKET_COUNT ==> (#[trigger] self.buckets@[b]).inner().head_size()
                    == other.buckets@[b].inner().head_size());
        }
    }

    /// What follows if a bucket is exhausted.
    proof fn lemma_bucket_exhausted(self, other: Self)
        requires
            self.wf(),
            self.iter.remaining().len() == 0,
            self.bucket_id + 1 < BUCKET_COUNT,
            other.store_id == self.store_id,
            other.buckets == self.buckets,
            other.bucket_id == self.bucket_id + 1,
            other.iter.wf(),
            ({
                let inner = self.buckets@[self.bucket_id + 1].inner();
                &&& other.iter.remaining() == addresses(inner.head_size(), inner.unused())
                &&& other.iter.block_size() == inner.head_size()
            }),
        ensures
            other.wf(),
            other.places() == self.places(),
            other.remaining() == self.remaining(),
    {
        let bucket = self.buckets@[self.bucket_id + 1];
        assert(bucket.wf());
        bucket.lemma_wf();
        let (size, unused) = (bucket.inner().head_size(), bucket.inner().unused());
        law_addresses(size, unused);
        assert forall|i: int| 0 <= i < other.iter.remaining().len() implies bucket.touched(
            #[trigger] other.iter.remaining()[i] as int,
        ) by {
            assert(addresses(size, unused).contains(other.iter.remaining()[i]));
        }
        assert(self.places() =~= other.places());
    }

    /// The next element with its ID, if there is one left.
    pub fn next(&mut self) -> (element: Option<(Id, Element)>)
        requires
            old(self).wf(),
        ensures
            final(self).wf(),
            final(self).sizes_known() == old(self).sizes_known(),
            match element {
                Some((id, _)) => visits_up_to(
                    old(self).places(),
                    place_of(id),
                    final(self).places(),
                ),
                None => final(self).slots_left() == 0,
            },
            old(self).remaining().len() == 0 ==> element is None && final(self).remaining() == old(
                self).remaining(),
            old(self).remaining().len() > 0 ==> element == Some(old(self).remaining()[0]) && final(
                self).remaining() == old(self).remaining().drop_first(),
    {
        let ghost mut visited: int = 0;
        let ghost all = self.places();
        assert(all.subrange(0, all.len() as int) =~= all);
        loop
            invariant
                self.wf(),
                self.sizes_known() == old(self).sizes_known(),
                all == old(self).places(),
                0 <= visited <= all.len(),
                self.places() == all.subrange(visited, all.len() as int),
                self.remaining() == old(self).remaining(),
            decreases BUCKET_COUNT - self.bucket_id, self.iter.remaining().len(),
        {
            let ghost before = *self;
            match self.iter.next() {
                Some(address) => {
                    let bucket_id = self.bucket_id;
                    proof {
                        let bucket = self.buckets@[bucket_id as int];
                        assert(bucket.wf());
                        bucket.lemma_wf();
                        assert(bucket.touched(before.iter.remaining()[0] as int));
                        assert(bucket.at(address as int).wf());
                    }
                    let taken = self.buckets[bucket_id as usize].head_mut().take(
                        address,
                        bucket_id,
                    );
                    proof {
                        before.lemma_taken(*self);
                        assert(all[visited] == (bucket_id, address));
                        if let Some((id, _)) = taken {
                            let slot = before.buckets@[bucket_id as int].at(address as int);
                            id::law_id_parts(slot.header.id, bucket_id, address, before.store_id);
                            assert(place_of(id) == all[visited]);
                        }
                        visited = visited + 1;
                        assert(self.places() =~= all.subrange(visited, all.len() as int));
                        assert(old(self).remaining().drop_first() =~= self.remaining()
                            || taken is None);
                    }
                    if taken.is_some() {
                        return taken;
                    }
                },
                None => {
                    if self.bucket_id + 1 >= BUCKET_COUNT {
                        return None;
                    }
                    self.bucket_id = self.bucket_id + 1;
                    proof {
                        assert(self.buckets@[self.bucket_id as int].wf());
                    }
                    self.iter = self.buckets[self.bucket_id as usize].iter();
                    proof {
                        before.lemma_bucket_exhausted(*self);
                    }
                },
            }
        }
    }

    /// Bounds on the number of elements that are still to be visited: there may be none, and there
    /// are no more of them than slots.
    pub fn size_hint(&self) -> (hint: (usize, Option<usize>))
        requires
            self.wf(),
            self.sizes_known(),
        ensures
            hint.0 == 0,
            hint.1 == Some(self.slots_left() as usize),
            self.remaining().len() <= self.slots_left() <= usize::MAX,
    {
        proof {
            lemma_no_more_elements_than_places(self.buckets@, self.store_id, self.places());
            assert(self.buckets@[self.bucket_id as int].inner().head_size() < 0x8000_0000);
        }
        let mut touched_size: u32 = self.iter.len();
        let mut b: u32 = self.bucket_id + 1;
        while b < BUCKET_COUNT
            invariant
                self.wf(),
                self.sizes_known(),
                b <= BUCKET_COUNT,
                touched_size + places_from(self.buckets@, b as int).len() == self.slots_left(),
            decreases BUCKET_COUNT - b,
        {
            proof {
                let bucket = self.buckets@[b as int];
                assert(bucket.wf());
                bucket.lemma_wf();
                law_addresses(bucket.inner().head_size(), bucket.inner().unused());
            }
            let (touched, _) = self.buckets[b as usize].capacity();
            touched_size += touched;
            b = b + 1;
        }
        (0, Some(touched_size as usize))
    }
}

/// A mutable iterator over an [RwStore](crate::RwStore).
pub struct IterMut<'a, Element> {
    pub store: &'a mut RwStore<Element>,
    /// The bucket that is being visited.
    pub bucket_id: u32,
    /// The addresses of that bucket that are still to be visited.
    pub iter: GenIter,
}

impl<'a, Element> IterMut<'a, Element> {
    /// The slots that are still to be visited.
    pub closed spec fn places(self) -> Seq<(u32, u32)> {
        places_in(self.bucket_id, self.iter.remaining()) + places_from(
            self.store.buckets(),
            self.bucket_id + 1,
        )
    }

    /// The elements that are still to be visited, with their IDs.
    pub closed spec fn remaining(self) -> Seq<(Id, Element)> {
        elements_in(self.store.buckets(), self.store.spec_store_id(), self.places())
    }

    pub closed spec fn wf(self) -> bool {
        &&& self.store.wf()
        &&& self.bucket_id < BUCKET_COUNT
        &&& self.iter.wf()
        &&& self.iter.remaining().no_duplicates()
        &&& forall|i: int|
            0 <= i < self.iter.remaining().len() ==> self.store.touched(
                self.bucket_id as int,
                #[trigger] self.iter.remaining()[i] as int,
            )
        &&& self.iter.block_size()
            <= self.store.buckets()[self.bucket_id as int].inner().head_size()
        &&& self.places().len() <= u32::MAX
    }

    /// The number of slots that are still to be visited.
    pub open spec fn slots_left(self) -> nat {
        self.places().len()
    }

    /// Creates a mutable iterator over an [RwStore](crate::RwStore).
    pub fn new(store: &'a mut RwStore<Element>) -> (iter: Self)
        requires
            old(store).wf(),
        ensures
            iter.wf(),
            iter.store.wf(),
            *iter.store == *old(store),
            *final(store) == *final(iter.store),
            iter.remaining() == elements(*old(store)),
            iter.places() == places_from(old(store).buckets(), 0),
            iter.slots_left() == old(store).touched_capacity(),
    {
        proof {
            store.lemma_touched_capacity();
            lemma_places_len(store.buckets(), store.spec_store_id(), 0);
            let bucket = store.buckets()[0];
            assert(bucket.wf());
            bucket.lemma_wf();
            law_addresses(bucket.inner().head_size(), bucket.inner().unused());
        }
        let iter = store.bucket_iter(0);
        proof {
            assert forall|i: int| 0 <= i < iter.remaining().len() implies store.touched(
                0,
                #[trigger] iter.remaining()[i] as int,
            ) by {
                assert(iter.remaining().contains(iter.remaining()[i]));
            }
            assert(places_in(0, iter.remaining()) + places_from(store.buckets(), 1)
                =~= places_from(store.buckets(), 0));
        }
        Self { store, bucket_id: 0, iter }
    }

    /// Changing the slot that was visited last changes neither the slots nor the elements that are
    /// still to be visited.
    proof fn lemma_visited(
        store: RwStore<Element>,
        other: RwStore<Element>,
        place: (u32, u32),
        places: Seq<(u32, u32)>,
    )
        requires
            store.wf(),
            store.touched(place.0 as int, place.1 as int),
            store.differs_in_slot(place.0 as int, place.1 as int, other),
            !places.contains(place),
            forall|i: int|
                0 <= i < places.len() ==> store.touched(
                    (#[trigger] places[i]).0 as int,
                    places[i].1 as int,
                ),
        ensures
            elements_in(store.buckets(), store.spec_store_id(), places) == elements_in(
                other.buckets(),
                store.spec_store_id(),
                places,
            ),
            forall|b: int| 0 <= b ==> places_from(store.buckets(), b) == places_from(
                other.buckets(),
                b,
            ),
    {
        let (b, a) = (place.0 as int, place.1 as int);
        assert(store.buckets()[b].wf());
        store.buckets()[b].lemma_differs_in_slot(a, other.buckets()[b]);
        assert forall|i: int| 0 <= i < places.len() implies store.buckets()[(
        #[trigger] places[i]).0 as int].at(places[i].1 as int)
            == other.buckets()[places[i].0 as int].at(places[i].1 as int) by {
            assert(places.contains(places[i]));
        }
        lemma_elements_equal(store.buckets(), other.buckets(), store.spec_store_id(), places);
        assert forall|i: int| 0 <= i implies places_from(store.buckets(), i) == places_from(
            other.buckets(),
            i,
        ) by {
            lemma_places_equal(store.buckets(), other.buckets(), i);
        }
    }

    /// Finds the next slot that holds an element.
    fn advance(&mut self) -> (address: Option<u32>)
        requires
            old(self).wf(),
        ensures
            final(self).wf(),
            *final(self).store == *old(self).store,
            *final(final(self).store) == *final(old(self).store),
            match address {
                Some(address) => {
                    let place = (final(self).bucket_id, address);
                    let store = *old(self).store;
                    &&& visits_up_to(old(self).places(), place, final(self).places())
                    &&& store.touched(place.0 as int, place.1 as int)
                    &&& store.slot(place.0 as int, place.1 as int).header.occupied()
                    &&& !final(self).places().contains(place)
                    &&& old(self).remaining() == seq![
                        element_at(store.buckets(), store.spec_store_id(), place),
                    ] + final(self).remaining()
                },
                None => {
                    &&& old(self).remaining().len() == 0
                    &&& final(self).remaining() == old(self).remaining()
                    &&& final(self).slots_left() == 0
                },
            },
    {
        let ghost mut visited: int = 0;
        let ghost all = self.places();
        assert(all.subrange(0, all.len() as int) =~= all);
        loop
            invariant
                self.wf(),
                *self.store == *old(self).store,
                *final(self.store) == *final(old(self).store),
                all == old(self).places(),
                0 <= visited <= all.len(),
                self.places() == all.subrange(visited, all.len() as int),
                self.remaining() == old(self).remaining(),
            decreases BUCKET_COUNT - self.bucket_id, self.iter.remaining().len(),
        {
            let ghost places = self.places();
            let ghost before = self.iter.remaining();
            match self.iter.next() {
                Some(address) => {
                    proof {
                        let place = (self.bucket_id, address);
                        assert(self.store.touched(self.bucket_id as int, before[0] as int));
                        assert(places.drop_first() =~= self.places());
                        assert(places[0] == place);
                        assert(all[visited] == place);
                        visited = visited + 1;
                        assert(self.places() =~= all.subrange(visited, all.len() as int));
                        lemma_places(
                            self.store.buckets(),
                            self.store.spec_store_id(),
                            self.bucket_id + 1,
                        );
                        let after = self.iter.remaining();
                        assert forall|i: int| 0 <= i < after.len() implies self.store.touched(
                            self.bucket_id as int,
                            #[trigger] after[i] as int,
                        ) by {
                            assert(after[i] == before[i + 1]);
                        }
                        let later = places_from(self.store.buckets(), self.bucket_id + 1);
                        assert forall|i: int| 0 <= i < self.places().len() implies
                            #[trigger] self.places()[i] != place by {
                            if i < after.len() {
                                assert(self.places()[i] == (self.bucket_id, after[i]));
                                assert(after[i] == before[i + 1]);
                            } else {
                                assert(self.places()[i] == later[i - after.len()]);
                                assert(later.contains(self.places()[i]));
                            }
                        }
                    }
                    if self.store.is_occupied(self.bucket_id, address) {
                        return Some(address);
                    }
                },
                None => {
                    if self.bucket_id + 1 >= BUCKET_COUNT {
                        return None;
                    }
                    self.bucket_id = self.bucket_id + 1;
                    self.iter = self.store.bucket_iter(self.bucket_id);
                    proof {
                        let bucket = self.store.buckets()[self.bucket_id as int];
                        assert(bucket.wf());
                        bucket.lemma_wf();
                        let (size, unused) = (bucket.inner().head_size(), bucket.inner().unused());
                        law_addresses(size, unused);
                        assert forall|i: int| 0 <= i < self.iter.remaining().len() implies
                            bucket.touched(#[trigger] self.iter.remaining()[i] as int) by {
                            assert(addresses(size, unused).contains(self.iter.remaining()[i]));
                        }
                        assert(self.places() =~= places);
                    }
                },
            }
        }
    }

    /// The next element with its ID, if there is one left.
    pub fn next(&mut self) -> (element: Option<(Id, &mut Element)>)
        requires
            old(self).wf(),
        ensures
            final(self).wf(),
            final(self).store.wf(),
            *final(final(self).store) == *final(old(self).store),
            match element {
                Some((id, element)) => {
                    &&& visits_up_to(old(self).places(), place_of(id), final(self).places())
                    &&& old(self).remaining().len() > 0
                    &&& (id, *element) == old(self).remaining()[0]
                    &&& final(self).remaining() == old(self).remaining().drop_first()
                    &&& old(self).store.updated(id, *final(element), *final(self).store)
                },
                None => {
                    &&& old(self).remaining().len() == 0
                    &&& final(self).remaining() == old(self).remaining()
                    &&& final(self).slots_left() == 0
                    &&& *final(self).store == *old(self).store
                },
            },
    {
        broadcast use id::law_id_parts;

        match self.advance() {
            Some(address) => {
                let ghost advanced = *self;
                let ghost place = (self.bucket_id, address);
                proof {
                    lemma_places(
                        self.store.buckets(),
                        self.store.spec_store_id(),
                        self.bucket_id + 1,
                    );
                    let places = self.places();
                    let here = self.iter.remaining();
                    let later = places_from(self.store.buckets(), self.bucket_id + 1);
                    assert forall|i: int| 0 <= i < places.len() implies self.store.touched(
                        (#[trigger] places[i]).0 as int,
                        places[i].1 as int,
                    ) by {
                        if i < here.len() {
                            assert(places[i] == (self.bucket_id, here[i]));
                        } else {
                            assert(places[i] == later[i - here.len()]);
                            assert(later.contains(places[i]));
                        }
                    }
                    assert(old(self).remaining().drop_first() =~= self.remaining());
                }
                let contents = self.store.slot_contents(self.bucket_id, address);
                proof {
                    let after = *after_borrow(*self).store;
                    Self::lemma_visited(*advanced.store, after, place, advanced.places());
                }
                Some(contents)
            },
            None => None,
        }
    }

    /// Bounds on the number of elements that are still to be visited: there may be none, and there
    /// are no more of them than slots.
    pub fn size_hint(&self) -> (hint: (usize, Option<usize>))
        requires
            self.wf(),
            self.store.sizes_known(),
        ensures
            hint.0 == 0,
            hint.1 == Some(self.slots_left() as usize),
            self.remaining().len() <= self.slots_left() <= usize::MAX,
    {
        proof {
            lemma_no_more_elements_than_places(
                self.store.buckets(),
                self.store.spec_store_id(),
                self.places(),
            );
            assert(self.store.buckets()[self.bucket_id as int].inner().head_size() < 0x8000_0000);
        }
        let mut touched_size: u32 = self.iter.len();
        let mut b: u32 = self.bucket_id + 1;
        while b < BUCKET_COUNT
            invariant
                self.wf(),
                self.store.sizes_known(),
                b <= BUCKET_COUNT,
                touched_size + places_from(self.store.buckets(), b as int).len()
                    == self.slots_left(),
            decreases BUCKET_COUNT - b,
        {
            proof {
                let bucket = self.store.buckets()[b as int];
                assert(bucket.wf());
                bucket.lemma_wf();
                law_addresses(bucket.inner().head_size(), bucket.inner().unused());
            }
            let (touched, _) = self.store.bucket_capacity(b);
            touched_size += touched;
            b = b + 1;
        }
        (0, Some(touched_size as usize))
    }
}

/// The touched capacity of a bucket is the number of its slots that were ever handed out.
pub proof fn law_touched_capacity_counts_the_slots<Element>(bucket: Bucket<Element>)
    requires
        bucket.wf(),
    ensures
        ({
            let all = addresses(bucket.inner().head_size(), bucket.inner().unused());
            &&& all.no_duplicates()
            &&& all.len() == bucket.touched_capacity()
            &&& forall|a: u32| #[trigger] all.contains(a) <==> bucket.touched(a as int)
        }),
{
    bucket.lemma_wf();
    law_addresses(bucket.inner().head_size(), bucket.inner().unused());
}

/// Visiting slots up to one of them leaves those that come after it, in the same order.
pub proof fn law_visited_slots_come_first(
    before: Seq<(u32, u32)>,
    place: (u32, u32),
    after: Seq<(u32, u32)>,
)
    requires
        visits_up_to(before, place, after),
    ensures
        after.len() < before.len(),
        before[before.len() - after.len() - 1] == place,
        forall|i: int|
            0 <= i < after.len() ==> #[trigger] after[i] == before[before.len() - after.len() + i],
{
}

} // verus!
