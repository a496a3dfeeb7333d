use vstd::prelude::*;
use std::collections::HashMap;
use std::collections::VecDeque;
use rand::Rng;
use rand::SeedableRng;
use rand::seq::SliceRandom;
use rand::rngs::SmallRng;
use rand::rngs::ThreadRng;
use crate::codec::parse_u64;
use crate::codec::spec_parse_u64;
use crate::phrase::discovery_words;

verus! {

#[verifier::external_type_specification]
#[verifier::external_body]
pub struct ExSmallRng(SmallRng);

#[verifier::external_type_specification]
#[verifier::external_body]
pub struct ExThreadRng(ThreadRng);

/// rand's `SmallRng::from_entropy`: a generator seeded from the system; nothing is claimed
/// of its state.
#[verifier::external_body]
fn small_rng_from_entropy() -> SmallRng {
    SmallRng::from_entropy()
}

/// rand's `SliceRandom::shuffle` on the deque's contiguous contents (std's
/// `VecDeque::make_contiguous`): the claim is that the result is a permutation.
#[verifier::external_body]
fn shuffle_slots(slots: &mut VecDeque<u64>, rng: &mut SmallRng)
    ensures
        final(slots)@.to_multiset() == old(slots)@.to_multiset(),
{
    slots.make_contiguous().shuffle(rng)
}

/// rand's `Rng::gen::<bool>`: a random bit; nothing is claimed of it, only that the call
/// does not unwind (for `SmallRng` it is the sign of `next_u32`, wrapping arithmetic, shifts
/// and rotations that cannot panic).
#[verifier::external_body]
fn random_bool(rng: &mut SmallRng) -> bool
    no_unwind
{
    rng.gen()
}

/// rand's `thread_rng`: the thread's generator; nothing is claimed of its state.
#[verifier::external_body]
fn thread_rng() -> ThreadRng {
    rand::thread_rng()
}

/// rand's `SliceRandom::choose`: the claims are that it gives nothing exactly for an empty
/// list, and otherwise one of the list's words.
#[verifier::external_body]
fn choose_word<'a>(list: &[&'a str], rng: &mut ThreadRng) -> (w: Option<&'a str>)
    ensures
        w is None <==> list@.len() == 0,
        w matches Some(x) ==> list@.contains(x),
{
    list.choose(rng).copied()
}

/// Three random words from `list`, joined by `-`; `None` when the list is empty.
pub fn pick_discovery_words(list: &[&str]) -> (r: Option<String>)
    ensures
        r is None <==> list@.len() == 0,
        r matches Some(s) ==> exists|a: int, b: int, c: int|
            0 <= a < list@.len() && 0 <= b < list@.len() && 0 <= c < list@.len() && s@ == list@[a]@
                + seq!['-'] + list@[b]@ + seq!['-'] + list@[c]@,
{
    let mut rng = thread_rng();
    let w1 = choose_word(list, &mut rng);
    let w2 = choose_word(list, &mut rng);
    let w3 = choose_word(list, &mut rng);
    match (w1, w2, w3) {
        (Some(a), Some(b), Some(c)) => {
            let s = discovery_words(a, b, c);
            proof {
                let i = choose|i: int| 0 <= i < list@.len() && list@[i] == a;
                let j = choose|j: int| 0 <= j < list@.len() && list@[j] == b;
                let k = choose|k: int| 0 <= k < list@.len() && list@[k] == c;
                assert(s@ == list@[i]@ + seq!['-'] + list@[j]@ + seq!['-'] + list@[k]@);
            }
            Some(s)
        },
        _ => None,
    }
}

/// A slot number of the discovery table.
#[derive(Debug, Clone, Copy, PartialEq, Eq, Structural, Hash)]
pub struct TableIdx(pub u64);

/// The discovery table's invariant over plain values: the free slots and the reserved ones
/// split `0..capacity` between them, with no slot twice.
pub open spec fn slots_partition<V>(free: Seq<u64>, reserved: Map<u64, V>, capacity: nat) -> bool {
    &&& free.no_duplicates()
    &&& forall|i: int| 0 <= i < free.len() ==> #[trigger] free[i] < capacity && !reserved.contains_key(free[i])
    &&& forall|k: u64| #[trigger] reserved.contains_key(k) ==> k < capacity
    &&& forall|k: u64| k < capacity ==> #[trigger] free.contains(k) || reserved.contains_key(k)
}

/// Reserving: the slot at the back of the free list holds the channel.
pub open spec fn spec_reserve<V>(free: Seq<u64>, reserved: Map<u64, V>, ch: V) -> (Seq<u64>, Map<u64, V>, Option<u64>) {
    if free.len() == 0 {
        (free, reserved, None)
    } else {
        (free.drop_last(), reserved.insert(free.last(), ch), Some(free.last()))
    }
}

/// Looking up: a reserved slot gives its channel back and becomes free again, at the back
/// of the free list or at its front.
pub open spec fn spec_lookup<V>(free: Seq<u64>, reserved: Map<u64, V>, idx: u64, to_back: bool) -> (Seq<u64>, Map<u64, V>, Option<V>) {
    if reserved.contains_key(idx) {
        (
            if to_back {
                free.push(idx)
            } else {
                seq![idx] + free
            },
            reserved.remove(idx),
            Some(reserved[idx]),
        )
    } else {
        (free, reserved, None)
    }
}

/// The slots of the discovery table: the reserved ones with their channels, the free ones
/// in the order in which they are handed out (from the back), and how many there are.
struct Slots<V> {
    map: HashMap<u64, V>,
    free: VecDeque<u64>,
    capacity: Ghost<nat>,
}

impl<V> Slots<V> {
    /// No slots at all.
    fn none() -> (s: Slots<V>)
        ensures
            s.free@ == Seq::<u64>::empty(),
            s.map@ == Map::<u64, V>::empty(),
            s.capacity@ == 0,
    {
        Slots { map: HashMap::new(), free: VecDeque::new(), capacity: Ghost(0) }
    }
}

/// The relay's table of pending discovery handshakes: a fixed set of slot numbers, each free
/// or holding the channel of the initiator that waits on it.
pub struct DiscoveryTable<V> {
    slots: Slots<V>,
    rng: SmallRng,
}

impl<V> DiscoveryTable<V> {
    #[verifier::type_invariant]
    spec fn slots_split(self) -> bool {
        slots_partition(self.slots.free@, self.slots.map@, self.slots.capacity@)
    }

    pub closed spec fn free(self) -> Seq<u64> {
        self.slots.free@
    }

    pub closed spec fn reserved(self) -> Map<u64, V> {
        self.slots.map@
    }

    pub closed spec fn capacity(self) -> nat {
        self.slots.capacity@
    }

    /// The free and reserved slots split `0..capacity` between them (always so).
    pub open spec fn wf(self) -> bool {
        slots_partition(self.free(), self.reserved(), self.capacity())
    }

    /// A table of `capacity` free slots, `0..capacity` in random order.
    pub fn new(capacity: u64) -> (t: DiscoveryTable<V>)
        ensures
            t.wf(),
            t.capacity() == capacity,
            t.reserved() == Map::<u64, V>::empty(),
            t.free().len() == capacity,
    {
        let mut slots: VecDeque<u64> = VecDeque::new();
        let mut i: u64 = 0;
        while i < capacity
            invariant
                i <= capacity,
                slots@ == Seq::new(i as nat, |j: int| j as u64),
            decreases capacity - i,
        {
            slots.push_back(i);
            i = i + 1;
        }
        let ghost before = slots@;
        let mut rng = small_rng_from_entropy();
        shuffle_slots(&mut slots, &mut rng);
        proof {
            assert(before.no_duplicates());
            before.lemma_multiset_has_no_duplicates();
            before.to_multiset_ensures();
            slots@.to_multiset_ensures();
            slots@.lemma_multiset_has_no_duplicates_conv();
            assert forall|k: int| 0 <= k < slots@.len() implies #[trigger] slots@[k] < capacity by {
                let x = slots@[k];
                assert(slots@.contains(x));
                assert(slots@.to_multiset().count(x) > 0);
                assert(before.to_multiset().count(x) > 0);
                assert(before.contains(x));
            }
            assert forall|k: u64| k < capacity implies #[trigger] slots@.contains(k) by {
                assert(before[k as int] == k);
                assert(before.contains(k));
                assert(before.to_multiset().count(k) > 0);
                assert(slots@.to_multiset().count(k) > 0);
            }
        }
        DiscoveryTable {
            slots: Slots { map: HashMap::new(), free: slots, capacity: Ghost(capacity as nat) },
            rng,
        }
    }

    /// Reserves a free slot for `ch`; `None` when every slot is taken.
    pub fn reserve(&mut self, ch: V) -> (r: Option<TableIdx>)
        ensures
            final(self).wf(),
            final(self).capacity() == old(self).capacity(),
            (final(self).free(), final(self).reserved()) == (
                spec_reserve(old(self).free(), old(self).reserved(), ch).0,
                spec_reserve(old(self).free(), old(self).reserved(), ch).1,
            ),
            match spec_reserve(old(self).free(), old(self).reserved(), ch).2 {
                Some(i) => r == Some(TableIdx(i)),
                None => r is None,
            },
    {
        proof {
            use_type_invariant(&*self);
        }
        let mut st = Slots::none();
        std::mem::swap(&mut st, &mut self.slots);
        let r = if let Some(idx) = st.free.pop_back() {
            st.map.insert(idx, ch);
            Some(TableIdx(idx))
        } else {
            None
        };
        proof {
            law_reserve_keeps_partition(old(self).free(), old(self).reserved(), old(self).capacity(), ch);
        }
        self.slots = st;
        r
    }

    /// Takes back the channel reserved at `idx` and frees the slot, putting it at the back of
    /// the free list when `to_back` and at its front otherwise.
    pub fn lookup_with(&mut self, idx: TableIdx, to_back: bool) -> (r: Option<V>)
        ensures
            final(self).wf(),
            final(self).capacity() == old(self).capacity(),
            (final(self).free(), final(self).reserved(), r) == spec_lookup(
                old(self).free(),
                old(self).reserved(),
                idx.0,
                to_back,
            ),
    {
        proof {
            use_type_invariant(&*self);
        }
        let mut st = Slots::none();
        std::mem::swap(&mut st, &mut self.slots);
        let r = if let Some(a) = st.map.remove(&idx.0) {
            if to_back {
                st.free.push_back(idx.0);
            } else {
                st.free.push_front(idx.0);
            }
            Some(a)
        } else {
            None
        };
        proof {
            law_lookup_keeps_partition(old(self).free(), old(self).reserved(), old(self).capacity(), idx.0, to_back);
        }
        self.slots = st;
        r
    }

    /// Takes back the channel reserved at `idx`; the freed slot goes to the back or the front
    /// of the free list at random.
    pub fn lookup(&mut self, idx: TableIdx) -> (r: Option<V>)
        ensures
            final(self).wf(),
            final(self).capacity() == old(self).capacity(),
            exists|to_back: bool|
                (final(self).free(), final(self).reserved(), r) == spec_lookup(
                    old(self).free(),
                    old(self).reserved(),
                    idx.0,
                    to_back,
                ),
    {
        proof {
            use_type_invariant(&*self);
        }
        if self.slots.map.contains_key(&idx.0) {
            let to_back = random_bool(&mut self.rng);
            self.lookup_with(idx, to_back)
        } else {
            proof {
                assert((self.free(), self.reserved(), None::<V>) == spec_lookup(
                    old(self).free(), old(self).reserved(), idx.0, true));
            }
            None
        }
    }
}

/// Reserving keeps the slots split between free and reserved.
pub proof fn law_reserve_keeps_partition<V>(free: Seq<u64>, reserved: Map<u64, V>, capacity: nat, ch: V)
    requires
        slots_partition(free, reserved, capacity),
    ensures
        slots_partition(spec_reserve(free, reserved, ch).0, spec_reserve(free, reserved, ch).1, capacity),
{
    if free.len() > 0 {
        let f = free.drop_last();
        let m = reserved.insert(free.last(), ch);
        let idx = free.last();
        assert forall|i: int| 0 <= i < f.len() implies #[trigger] f[i] < capacity && !m.contains_key(f[i]) by {
            assert(f[i] == free[i]);
            assert(free[i] != free[free.len() - 1]);
        }
        assert forall|k: u64| k < capacity implies #[trigger] f.contains(k) || m.contains_key(k) by {
            if free.contains(k) && k != idx {
                let i = choose|i: int| 0 <= i < free.len() && free[i] == k;
                assert(i != free.len() - 1);
                assert(f[i] == k);
            }
        }
        assert(free[free.len() - 1] < capacity);
    }
}

/// Looking up keeps the slots split between free and reserved.
pub proof fn law_lookup_keeps_partition<V>(free: Seq<u64>, reserved: Map<u64, V>, capacity: nat, idx: u64, to_back: bool)
    requires
        slots_partition(free, reserved, capacity),
    ensures
        slots_partition(spec_lookup(free, reserved, idx, to_back).0, spec_lookup(free, reserved, idx, to_back).1, capacity),
{
    if reserved.contains_key(idx) {
        let f = spec_lookup(free, reserved, idx, to_back).0;
        let m = reserved.remove(idx);
        assert(!free.contains(idx)) by {
            if free.contains(idx) {
                let i = choose|i: int| 0 <= i < free.len() && free[i] == idx;
                assert(!reserved.contains_key(free[i]));
            }
        }
        if to_back {
            assert forall|i: int| 0 <= i < f.len() implies #[trigger] f[i] < capacity && !m.contains_key(f[i]) by {
                if i < free.len() {
                    assert(f[i] == free[i]);
                }
            }
            assert forall|a: int, b: int| 0 <= a < f.len() && 0 <= b < f.len() && a != b implies f[a] != f[b] by {
                if a < free.len() && b < free.len() {
                    assert(f[a] == free[a] && f[b] == free[b]);
                } else if a < free.len() {
                    assert(f[a] == free[a]);
                } else if b < free.len() {
                    assert(f[b] == free[b]);
                }
            }
            assert forall|k: u64| k < capacity implies #[trigger] f.contains(k) || m.contains_key(k) by {
                if k == idx {
                    assert(f[free.len() as int] == idx);
                } else if free.contains(k) {
                    let i = choose|i: int| 0 <= i < free.len() && free[i] == k;
                    assert(f[i] == k);
                }
            }
        } else {
            assert forall|i: int| 0 <= i < f.len() implies #[trigger] f[i] < capacity && !m.contains_key(f[i]) by {
                if i > 0 {
                    assert(f[i] == free[i - 1]);
                }
            }
            assert forall|a: int, b: int| 0 <= a < f.len() && 0 <= b < f.len() && a != b implies f[a] != f[b] by {
                if a > 0 && b > 0 {
                    assert(f[a] == free[a - 1] && f[b] == free[b - 1]);
                } else if a > 0 {
                    assert(f[a] == free[a - 1]);
                } else if b > 0 {
                    assert(f[b] == free[b - 1]);
                }
            }
            assert forall|k: u64| k < capacity implies #[trigger] f.contains(k) || m.contains_key(k) by {
                if k == idx {
                    assert(f[0] == idx);
                } else if free.contains(k) {
                    let i = choose|i: int| 0 <= i < free.len() && free[i] == k;
                    assert(f[i + 1] == k);
                }
            }
        }
    }
}

/// Reserving is refused only when every slot is taken.
pub proof fn law_reserve_refused_only_when_full<V>(free: Seq<u64>, reserved: Map<u64, V>, capacity: nat, ch: V)
    requires
        slots_partition(free, reserved, capacity),
    ensures
        spec_reserve(free, reserved, ch).2 is None <==> forall|k: u64| k < capacity ==> #[trigger] reserved.contains_key(k),
{
    if free.len() > 0 {
        assert(free[free.len() - 1] < capacity && !reserved.contains_key(free[free.len() - 1]));
    } else {
        assert forall|k: u64| k < capacity implies #[trigger] reserved.contains_key(k) by {
            assert(!free.contains(k));
        }
    }
}

/// A lookup of the slot that a reservation was given returns the reserved channel and
/// restores the reservations as they were before it; the slot is free again.
pub proof fn law_lookup_returns_reserved<V>(free: Seq<u64>, reserved: Map<u64, V>, capacity: nat, ch: V, to_back: bool)
    requires
        slots_partition(free, reserved, capacity),
        free.len() > 0,
    ensures
        ({
            let (f1, m1, i) = spec_reserve(free, reserved, ch);
            let (f2, m2, got) = spec_lookup(f1, m1, i->0, to_back);
            &&& got == Some(ch)
            &&& m2 == reserved
            &&& (if to_back { f2 == free } else { f2 == seq![free.last()] + free.drop_last() })
        }),
{
    let (f1, m1, i) = spec_reserve(free, reserved, ch);
    assert(!reserved.contains_key(free[free.len() - 1]));
    assert(m1.remove(free.last()) =~= reserved);
    if to_back {
        assert(free.drop_last().push(free.last()) == free);
    }
}

/// Which side of a discovery handshake a connection takes, from the path after `/discover/`.
#[derive(Debug, Clone, Copy, PartialEq, Eq, Structural)]
pub enum DiscoverRole {
    /// An empty path: the initiator, who is given a slot.
    Initiator,
    /// A slot number: the responder who joins it.
    Responder(TableIdx),
}

/// The role for a discovery path: `Initiator` for the empty path, `Responder` for a path that
/// parses as a slot number, `None` otherwise.
pub fn discover_role(tail: &str) -> (r: Option<DiscoverRole>)
    ensures
        tail@.len() == 0 ==> r == Some(DiscoverRole::Initiator),
        tail@.len() > 0 ==> match spec_parse_u64(tail@) {
            Some(n) => r == Some(DiscoverRole::Responder(TableIdx(n))),
            None => r is None,
        },
{
    if tail.is_empty() {
        Some(DiscoverRole::Initiator)
    } else {
        match parse_u64(tail) {
            Some(n) => Some(DiscoverRole::Responder(TableIdx(n))),
            None => None,
        }
    }
}

} // verus!
