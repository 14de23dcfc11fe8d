//! What holds of a store over time.

use vstd::prelude::*;

use crate::header::Lock;
use crate::id::Id;
use crate::iter;
use crate::lock::{ReadLock, WriteLock};
use crate::store::RwStore;
use crate::timeout::Timeout;

verus! {

/// A store that was just created.
pub open spec fn initial<Element>(store: RwStore<Element>) -> bool {
    &&& store@ == Map::<Id, Element>::empty()
    &&& store.erasures() == Seq::<(u32, u32)>::empty()
    &&& store.touched_capacity() == 0
    &&& store.allocated_capacity() == 0
}

/// Whether one operation on a store can lead from `s` to `t`: an insertion, a removal, or one that
/// leaves the elements where they are, such as locking and unlocking them and changing their values.
pub open spec fn next<Element>(s: RwStore<Element>, t: RwStore<Element>) -> bool {
    ||| exists|id: Id, element: Element| #[trigger] s.inserted_into(id, element, t)
        && s.allocated_capacity() <= t.allocated_capacity()
    ||| exists|id: Id, element: Element| #[trigger] s.removed(id, Some(element), t)
        && s.same_slots(t)
    ||| s.same_slots(t) && t@.dom() == s@.dom() && t.erasures() == s.erasures()
}

/// Whether `states` are the states that a store goes through, one after the other.
pub open spec fn is_history<Element>(states: Seq<RwStore<Element>>) -> bool {
    &&& states.len() > 0
    &&& initial(states[0])
    &&& forall|i: int| 0 <= i < states.len() ==> (#[trigger] states[i]).wf()
    &&& forall|i: int| 0 <= i < states.len() - 1 ==> next(#[trigger] states[i], states[i + 1])
}

/// An element that was inserted can be found under its ID, unlocked, and all other elements stay as
/// they are.
pub proof fn law_inserted_elements_are_found<Element>(
    s: RwStore<Element>,
    id: Id,
    element: Element,
    t: RwStore<Element>,
)
    requires
        s.inserted_into(id, element, t),
    ensures
        t@.contains_key(id),
        t@[id] == element,
        t.locks()[id] == Lock::Unlocked,
        forall|other: Id| other != id ==> (#[trigger] t@.contains_key(other) <==> s@.contains_key(
            other,
        )),
        forall|other: Id|
            other != id && s@.contains_key(other) ==> #[trigger] t@[other] == s@[other]
                && t.locks()[other] == s.locks()[other],
{
}

/// An element that was removed cannot be found under its ID anymore, and all other elements stay as
/// they are.
pub proof fn law_removed_elements_are_gone<Element>(
    s: RwStore<Element>,
    id: Id,
    element: Element,
    t: RwStore<Element>,
)
    requires
        s.removed(id, Some(element), t),
    ensures
        !t@.contains_key(id),
        forall|other: Id| other != id ==> (#[trigger] t@.contains_key(other) <==> s@.contains_key(
            other,
        )),
        forall|other: Id|
            other != id && s@.contains_key(other) ==> #[trigger] t@[other] == s@[other]
                && t.locks()[other] == s.locks()[other],
{
}

/// Reading an element gives back what was last written to it, and writing to an element changes
/// neither another element nor any lock.
pub proof fn law_reads_give_back_writes<Element>(
    s: RwStore<Element>,
    id: Id,
    element: Element,
    t: RwStore<Element>,
)
    requires
        s.updated(id, element, t),
    ensures
        t@.contains_key(id),
        t@[id] == element,
        t@.dom() == s@.dom(),
        forall|other: Id|
            other != id && s@.contains_key(other) ==> #[trigger] t@[other] == s@[other],
        t.locks() == s.locks(),
{
    assert(t@.dom() =~= s@.dom());
}

/// Releasing a read lock right after it was acquired leaves all locks as they were before.
pub proof fn law_unlocking_undoes_reading<Element>(
    s: RwStore<Element>,
    id: Id,
    lock: ReadLock<Element>,
    locks: Map<Id, Lock>,
)
    requires
        s.wf(),
        s.read_locked(id, Some(lock), locks),
    ensures
        locks[id] is Read,
        locks.insert(lock.spec_id(), locks[id].after_unlock_read()) == s.locks(),
{
    s.lemma_contains_issued(id);
    s.lemma_issued(id);
    assert(locks.insert(lock.spec_id(), locks[id].after_unlock_read()) =~= s.locks());
}

/// Releasing a write lock right after it was acquired leaves all locks as they were before.
pub proof fn law_unlocking_undoes_writing<Element>(
    s: RwStore<Element>,
    id: Id,
    lock: WriteLock<Element>,
    locks: Map<Id, Lock>,
)
    requires
        s.write_locked(id, Some(lock), locks),
    ensures
        locks[id] is Write,
        locks.insert(lock.spec_id(), Lock::Unlocked) == s.locks(),
{
    assert(locks.insert(lock.spec_id(), Lock::Unlocked) =~= s.locks());
}

/// A removal hands the element out exactly if it is there, and what it hands out is that element. The
/// space of the element is then the last one to be reused.
pub proof fn law_removals_hand_out_the_element<Element>(
    s: RwStore<Element>,
    id: Id,
    element: Option<Element>,
    t: RwStore<Element>,
)
    requires
        s.removed(id, element, t),
    ensures
        element is Some <==> s@.contains_key(id),
        element matches Some(element) ==> {
            &&& element == s@[id]
            &&& t.erasures().len() == s.erasures().len() + 1
            &&& t.erasures().last() == (id.spec_bucket_id(), id.spec_position())
            &&& forall|i: int|
                0 <= i < s.erasures().len() ==> #[trigger] t.erasures()[i] == s.erasures()[i]
        },
        element is None ==> t@ == s@ && t.locks() == s.locks() && t.erasures() == s.erasures(),
{
}

/// A read lock is handed out exactly if the element is there. It is one more read lock on that
/// element, and changes no other lock.
pub proof fn law_read_locks_are_on_their_elements<Element>(
    s: RwStore<Element>,
    id: Id,
    lock: Option<ReadLock<Element>>,
    locks: Map<Id, Lock>,
)
    requires
        s.wf(),
        s.read_locked(id, lock, locks),
    ensures
        lock is Some <==> s@.contains_key(id),
        locks.dom() == s.locks().dom(),
        forall|other: Id| other != id || lock is None ==> #[trigger] locks[other] == s.locks()[other],
        lock matches Some(lock) ==> {
            &&& lock.spec_id() == id
            &&& s.locks()[id] !is Write
            &&& locks[id] is Read
            &&& locks[id].readers() == s.locks()[id].readers() + 1
            &&& locks[id].waiting() == s.locks()[id].waiting()
        },
{
    if lock is Some {
        s.lemma_contains_issued(id);
        s.lemma_issued(id);
        assert(locks.dom() =~= s.locks().dom());
    }
}

/// A write lock is handed out exactly if the element is there, and only if no lock is held on it. It
/// changes no other lock.
pub proof fn law_write_locks_are_on_their_elements<Element>(
    s: RwStore<Element>,
    id: Id,
    lock: Option<WriteLock<Element>>,
    locks: Map<Id, Lock>,
)
    requires
        s.write_locked(id, lock, locks),
    ensures
        lock is Some <==> s@.contains_key(id),
        locks.dom() == s.locks().dom(),
        forall|other: Id| other != id || lock is None ==> #[trigger] locks[other] == s.locks()[other],
        lock matches Some(lock) ==> {
            &&& lock.spec_id() == id
            &&& s.locks()[id] == Lock::Unlocked
            &&& locks[id] == Lock::Write { waiting: false }
        },
{
    if lock is Some {
        assert(locks.dom() =~= s.locks().dom());
    }
}

/// A thread that waits for a lock shows that it does, and changes neither that lock otherwise nor any
/// other one. One that may not block leaves no trace.
pub proof fn law_waiting_changes_nothing_else<Element>(
    s: RwStore<Element>,
    id: Id,
    timeout: Timeout,
)
    requires
        s@.contains_key(id),
        s.locks()[id] != Lock::Unlocked,
    ensures
        ({
            let locks = s.locks_waited_for(id, timeout);
            &&& locks.dom() == s.locks().dom()
            &&& forall|other: Id| other != id ==> #[trigger] locks[other] == s.locks()[other]
            &&& timeout == Timeout::DontBlock ==> locks == s.locks()
            &&& timeout != Timeout::DontBlock ==> {
                &&& locks[id].waiting()
                &&& locks[id].readers() == s.locks()[id].readers()
                &&& locks[id] is Read == s.locks()[id] is Read
                &&& locks[id] is Write == s.locks()[id] is Write
            }
        }),
{
    assert(s.locks_waited_for(id, timeout).dom() =~= s.locks().dom());
}

/// An element is put where an element was removed, the first one that was, if there is such a slot,
/// and never where another element is. Its ID belongs to the store.
pub proof fn law_elements_have_slots_of_their_own<Element>(
    s: RwStore<Element>,
    id: Id,
    element: Element,
    t: RwStore<Element>,
)
    requires
        s.wf(),
        s.inserted_into(id, element, t),
    ensures
        forall|other: Id| #[trigger]
            s@.contains_key(other) ==> (other.spec_bucket_id(), other.spec_position()) != (
                id.spec_bucket_id(),
                id.spec_position(),
            ),
        s.erasures().len() > 0 ==> s.erasures()[0] == (id.spec_bucket_id(), id.spec_position())
            && t.erasures() == s.erasures().drop_first(),
        s.erasures().len() == 0 ==> t.erasures().len() == 0 && t.touched_capacity()
            == s.touched_capacity() + 1,
        id.spec_store_id() == t.spec_store_id(),
        t.inserted() == s.inserted() + 1,
{
    assert forall|other: Id| #[trigger] s@.contains_key(other) implies (
        other.spec_bucket_id(),
        other.spec_position(),
    ) != (id.spec_bucket_id(), id.spec_position()) by {
        s.lemma_contains_issued(other);
        if s.erasures().len() > 0 && (other.spec_bucket_id(), other.spec_position())
            == s.erasures()[0] {
            assert(s.erasures().contains(s.erasures()[0]));
            assert(s.erasures().contains((other.spec_bucket_id(), other.spec_position())));
        }
    }
    if s.erasures().len() > 0 {
        assert(t.erasures() =~= s.erasures().drop_first());
    }
}

/// An ID that was created by a store has an ordinal that was generated, and refers to a slot that was
/// handed out.
pub proof fn law_issued_ids_were_generated<Element>(s: RwStore<Element>, id: Id)
    requires
        s.wf(),
        s.issued(id),
    ensures
        id.spec_store_id() == s.spec_store_id(),
        id.spec_bucket_id() < 16,
        id.spec_ordinal() < s.buckets()[id.spec_bucket_id() as int].generated(),
        s.touched(id.spec_bucket_id() as int, id.spec_position() as int),
{
    s.lemma_issued(id);
    let (b, a) = (id.spec_bucket_id() as int, id.spec_position() as int);
    assert(s.slot(b, a).header.id <= s.buckets()[b].generated());
}

/// Nothing is locked exactly if every element is unlocked.
pub proof fn law_nothing_is_locked<Element>(s: RwStore<Element>)
    ensures
        s.nothing_locked() <==> forall|id: Id| #[trigger]
            s@.contains_key(id) ==> s.locks()[id] == Lock::Unlocked,
        s.locks().dom() == s@.dom(),
{
    assert(s.locks().dom() =~= s@.dom());
    assert(forall|id: Id| #[trigger] s@.contains_key(id) <==> s.locks().contains_key(id));
    assert(forall|id: Id| #[trigger] s.locks().contains_key(id) <==> s@.contains_key(id));
}

/// No ID was created by two stores, as long as the stores have different identities.
pub proof fn law_ids_belong_to_one_store<Element, Other>(
    s: RwStore<Element>,
    t: RwStore<Other>,
    id: Id,
)
    requires
        s.spec_store_id() != t.spec_store_id(),
        s.issued(id),
    ensures
        !t.issued(id),
{
}

/// Removing an element right after it was inserted yields the element, and leaves the elements and
/// the locks of the store as they were before.
pub proof fn law_removal_undoes_insertion<Element>(
    s: RwStore<Element>,
    id: Id,
    element: Element,
    t: RwStore<Element>,
    removed: Option<Element>,
    u: RwStore<Element>,
)
    requires
        s.wf(),
        s.inserted_into(id, element, t),
        t.removed(id, removed, u),
    ensures
        removed == Some(element),
        u@ == s@,
        u.locks() == s.locks(),
{
    if s.contains(id) {
        s.lemma_contains_issued(id);
    }
    assert(u@ =~= s@);
    assert(u.locks() =~= s.locks());
}

/// The space of a removed element is reused by the next insertion if no other space is ready for
/// reuse, under another ordinal.
pub proof fn law_space_is_reused<Element>(
    s: RwStore<Element>,
    id: Id,
    element: Element,
    t: RwStore<Element>,
    later_id: Id,
    later_element: Element,
    u: RwStore<Element>,
)
    requires
        s.wf(),
        t.wf(),
        s.erasures().len() == 0,
        s.removed(id, Some(element), t),
        s.same_slots(t),
        t.inserted_into(later_id, later_element, u),
    ensures
        later_id.spec_bucket_id() == id.spec_bucket_id(),
        later_id.spec_position() == id.spec_position(),
        later_id.spec_ordinal() != id.spec_ordinal(),
        u.touched_capacity() == s.touched_capacity(),
{
    assert(t.erasures()[0] == iter::place_of(id));
    s.lemma_contains_issued(id);
    assert(t.issued(id));
    assert(!t@.contains_key(id));
    assert(t.has_slot(id.spec_bucket_id() as int, id.spec_position() as int)) by {
        t.lemma_issued(id);
    }
    assert(t.slot(
        id.spec_bucket_id() as int,
        id.spec_position() as int,
    ).header.id > id.spec_ordinal());
}

/// Going from one state to the next, a store forgets none of the IDs that it created, keeps those of
/// the removed elements apart from new ones, and gives up none of its capacity.
proof fn lemma_next<Element>(s: RwStore<Element>, t: RwStore<Element>)
    requires
        s.wf(),
        next(s, t),
    ensures
        forall|id: Id| #[trigger] s.issued(id) ==> t.issued(id),
        forall|id: Id| s.issued(id) && !s@.contains_key(id) ==> !#[trigger] t@.contains_key(id),
        s.touched_capacity() <= t.touched_capacity(),
        s.allocated_capacity() <= t.allocated_capacity(),
        t.touched_capacity() > s.touched_capacity() ==> t.erasures().len() == 0,
{
}

proof fn lemma_history<Element>(states: Seq<RwStore<Element>>, i: int, j: int)
    requires
        is_history(states),
        0 <= i <= j < states.len(),
    ensures
        forall|id: Id| #[trigger] states[i].issued(id) ==> states[j].issued(id),
        forall|id: Id|
            states[i].issued(id) && !states[i]@.contains_key(id)
                ==> !#[trigger] states[j]@.contains_key(id),
        states[i].touched_capacity() <= states[j].touched_capacity(),
        states[i].allocated_capacity() <= states[j].allocated_capacity(),
    decreases j - i,
{
    if i < j {
        lemma_history(states, i, j - 1);
        assert(next(states[j - 1], states[j - 1 + 1]));
        lemma_next(states[j - 1], states[j]);
    }
}

/// Once an element was removed, it can never be found under its ID again, no matter what is inserted
/// later.
pub proof fn law_removed_ids_stay_removed<Element>(
    states: Seq<RwStore<Element>>,
    i: int,
    j: int,
    k: int,
    id: Id,
)
    requires
        is_history(states),
        0 <= i <= j <= k < states.len(),
        states[i]@.contains_key(id),
        !states[j]@.contains_key(id),
    ensures
        !states[k]@.contains_key(id),
{
    states[i].lemma_contains_issued(id);
    lemma_history(states, i, j);
    lemma_history(states, j, k);
    assert(states[j].issued(id));
}

/// No two insertions are given the same ID, and those into the same bucket are given different
/// ordinals.
pub proof fn law_ids_are_unique<Element>(
    states: Seq<RwStore<Element>>,
    i: int,
    earlier: Id,
    earlier_element: Element,
    j: int,
    later: Id,
    later_element: Element,
)
    requires
        is_history(states),
        0 <= i < j < states.len() - 1,
        states[i].inserted_into(earlier, earlier_element, states[i + 1]),
        states[j].inserted_into(later, later_element, states[j + 1]),
    ensures
        earlier != later,
        (earlier.spec_ordinal(), earlier.spec_bucket_id()) != (
            later.spec_ordinal(),
            later.spec_bucket_id(),
        ),
{
    lemma_history(states, i + 1, j);
    let s = states[j];
    let (b, a) = (earlier.spec_bucket_id() as int, earlier.spec_position() as int);
    s.lemma_issued(earlier);
    assert(s.slot(b, a).header.id <= s.buckets()[b].generated());
}

/// Whether the step after the `i`-th state removed the element with the given ID, and handed it out.
pub open spec fn is_removal<Element>(
    states: Seq<RwStore<Element>>,
    i: int,
    id: Id,
    element: Element,
) -> bool {
    states[i].removed(id, Some(element), states[i + 1])
}

proof fn lemma_element_is_removed<Element>(
    states: Seq<RwStore<Element>>,
    i: int,
    j: int,
    id: Id,
) -> (k: int)
    requires
        is_history(states),
        0 <= i <= j < states.len(),
        states[i]@.contains_key(id),
        !states[j]@.contains_key(id),
    ensures
        i <= k < j,
        is_removal(states, k, id, states[k]@[id]),
    decreases j - i,
{
    assert(next(states[i], states[i + 1]));
    if states[i + 1]@.contains_key(id) {
        lemma_element_is_removed(states, i + 1, j, id)
    } else {
        i
    }
}

/// An element that was in the store and is not anymore was handed out exactly once, no matter how
/// many calls tried to remove it: the removal that handed it out is the only one that did, and every
/// attempt at a removal before the element was inserted or after it was handed out gets nothing.
pub proof fn law_elements_are_removed_once<Element>(
    states: Seq<RwStore<Element>>,
    i: int,
    j: int,
    id: Id,
) -> (k: int)
    requires
        is_history(states),
        0 <= i <= j < states.len(),
        states[i]@.contains_key(id),
        !states[j]@.contains_key(id),
    ensures
        i <= k < j,
        is_removal(states, k, id, states[k]@[id]),
        forall|other: int, element: Element|
            0 <= other < states.len() - 1 && #[trigger] is_removal(states, other, id, element)
                ==> other == k && element == states[k]@[id],
        forall|other: int, result: Option<Element>|
            0 <= other < states.len() - 1 && #[trigger] states[other].removed(
                id,
                result,
                states[other + 1],
            ) && other != k ==> result is None,
{
    let k = lemma_element_is_removed(states, i, j, id);
    assert forall|other: int, element: Element|
        0 <= other < states.len() - 1 && #[trigger] is_removal(
            states,
            other,
            id,
            element,
        ) implies other == k && element == states[k]@[id] by {
        if k < other {
            law_removed_ids_stay_removed(states, k, k + 1, other, id);
        } else if other < k {
            law_removed_ids_stay_removed(states, other, other + 1, k, id);
        }
    }
    assert forall|other: int, result: Option<Element>|
        0 <= other < states.len() - 1 && #[trigger] states[other].removed(
            id,
            result,
            states[other + 1],
        ) && other != k implies result is None by {
        if result is Some {
            assert(is_removal(states, other, id, result->0));
        }
    }
    k
}

/// Neither the touched nor the allocated capacity of a store ever decreases.
pub proof fn law_capacities_never_decrease<Element>(
    states: Seq<RwStore<Element>>,
    i: int,
    j: int,
)
    requires
        is_history(states),
        0 <= i <= j < states.len(),
    ensures
        states[i].touched_capacity() <= states[j].touched_capacity(),
        states[i].allocated_capacity() <= states[j].allocated_capacity(),
{
    lemma_history(states, i, j);
}

/// The touched capacity of a store is the largest number of elements that it ever contained at the
/// same time: it never contained more, and it did contain as many.
pub proof fn law_touched_capacity_is_the_largest_number_of_elements<Element>(
    states: Seq<RwStore<Element>>,
)
    requires
        is_history(states),
    ensures
        forall|i: int|
            0 <= i < states.len() ==> (#[trigger] states[i])@.len()
                <= states.last().touched_capacity(),
        exists|i: int|
            0 <= i < states.len() && (#[trigger] states[i])@.len()
                == states.last().touched_capacity(),
    decreases states.len(),
{
    let last = states.len() - 1;
    assert forall|i: int| 0 <= i < states.len() implies (#[trigger] states[i])@.len()
        <= states.last().touched_capacity() by {
        lemma_history(states, i, last);
    }
    if last == 0 {
        assert(states[0]@.len() == 0);
    } else if states[last].touched_capacity() > states[last - 1].touched_capacity() {
        assert(next(states[last - 1], states[last - 1 + 1]));
        lemma_next(states[last - 1], states[last]);
        assert(states[last]@.len() == states.last().touched_capacity());
    } else {
        lemma_history(states, last - 1, last);
        let before = states.drop_last();
        assert forall|i: int| 0 <= i < before.len() - 1 implies next(
            #[trigger] before[i],
            before[i + 1],
        ) by {
            assert(next(states[i], states[i + 1]));
        }
        law_touched_capacity_is_the_largest_number_of_elements(before);
        let i = choose|i: int|
            0 <= i < before.len() && (#[trigger] before[i])@.len()
                == before.last().touched_capacity();
        assert(states[i]@.len() == states.last().touched_capacity());
    }
}

/// At least half of the slots of a store were touched, and no more of them than elements were ever
/// inserted.
pub proof fn law_capacities_are_bounded<Element>(store: RwStore<Element>)
    requires
        store.wf(),
    ensures
        store@.len() <= store.touched_capacity() <= store.inserted(),
        store.touched_capacity() <= store.allocated_capacity() <= 2 * store.touched_capacity(),
{
    store.lemma_touched_capacity();
}

/// The capacities of a store can be told as long as fewer than 2<sup>31</sup> elements were ever
/// inserted.
pub proof fn law_capacities_are_known<Element>(store: RwStore<Element>)
    requires
        store.wf(),
        store.inserted() < 0x8000_0000,
    ensures
        store.allocated_capacity() <= u32::MAX,
        store.sizes_known(),
{
    store.lemma_touched_capacity();
    store.lemma_sizes_known();
}

} // verus!
