//! The slot pool: a fixed set of control groups, each of which runs at most
//! one sandbox at a time.

use crate::bytes::{has_prefix, starts_with};
use vstd::prelude::*;
use vstd::string::StringSliceAdditionalSpecFns;
use vstd::utf8::encode_utf8;

verus! {

/// Why the pool could not serve.
#[derive(Debug)]
pub enum CgroupsError {
    /// The control group directory could not be listed; holds the cause.
    Fetch(String),
    /// No slot is free.
    NoFree,
    /// The sandbox process could not be started; holds the cause.
    Execute(String),
}

/// The prefix of the directory entries that are slots.
pub open spec fn slot_prefix() -> Seq<u8> {
    "workerd_".spec_bytes()
}

/// A directory entry names a slot when it begins with the slot prefix.
pub open spec fn is_slot_name(name: Seq<char>) -> bool {
    has_prefix(encode_utf8(name), slot_prefix())
}

/// The slots among the entries of a listing, in its order: every entry that
/// names a slot, once.
pub open spec fn slots_in(entries: Seq<Seq<char>>) -> Seq<Seq<char>>
    decreases entries.len(),
{
    if entries.len() == 0 {
        Seq::empty()
    } else {
        let earlier = slots_in(entries.drop_last());
        if is_slot_name(entries.last()) && !earlier.contains(entries.last()) {
            earlier.push(entries.last())
        } else {
            earlier
        }
    }
}

/// The slots of a listing are its entries with the prefix, none missing and
/// none twice; a listing without repeated names keeps each of them.
pub proof fn slots_in_facts(entries: Seq<Seq<char>>)
    ensures
        slots_in(entries).no_duplicates(),
        forall|name: Seq<char>| #[trigger]
            slots_in(entries).contains(name) <==> entries.contains(name) && is_slot_name(name),
        entries.no_duplicates() ==> slots_in(entries) == entries.filter(
            |n: Seq<char>| is_slot_name(n),
        ),
    decreases entries.len(),
{
    reveal(Seq::filter);
    let kept = slots_in(entries);
    if entries.len() > 0 {
        let rest = entries.drop_last();
        let earlier = slots_in(rest);
        let last = entries.last();
        slots_in_facts(rest);
        assert forall|name: Seq<char>| #[trigger]
            kept.contains(name) <==> entries.contains(name) && is_slot_name(name) by {
            if kept.contains(name) {
                let p = choose|p: int| 0 <= p < kept.len() && kept[p] == name;
                if p < earlier.len() {
                    assert(earlier[p] == name);
                    assert(slots_in(rest).contains(name));
                    assert(rest.contains(name));
                    let q = choose|q: int| 0 <= q < rest.len() && rest[q] == name;
                    assert(entries[q] == name);
                } else {
                    assert(entries[entries.len() - 1] == name);
                }
            }
            if entries.contains(name) && is_slot_name(name) {
                let q = choose|q: int| 0 <= q < entries.len() && entries[q] == name;
                if q < rest.len() {
                    assert(rest[q] == name);
                    assert(rest.contains(name));
                    assert(slots_in(rest).contains(name));
                    let p = choose|p: int| 0 <= p < earlier.len() && earlier[p] == name;
                    assert(kept[p] == name);
                } else if earlier.contains(name) {
                    let p = choose|p: int| 0 <= p < earlier.len() && earlier[p] == name;
                    assert(kept[p] == name);
                } else {
                    assert(kept[kept.len() - 1] == name);
                }
            }
        }
        if is_slot_name(last) && !earlier.contains(last) {
            assert forall|i: int, j: int|
                0 <= i < kept.len() && 0 <= j < kept.len() && i != j implies kept[i] != kept[j] by {
                if i < earlier.len() && j < earlier.len() {
                    assert(earlier[i] != earlier[j]);
                } else if i < earlier.len() {
                    assert(earlier.contains(earlier[i]));
                } else {
                    assert(earlier.contains(earlier[j]));
                }
            }
        }
        if entries.no_duplicates() {
            assert(rest.no_duplicates()) by {
                assert forall|i: int, j: int|
                    0 <= i < rest.len() && 0 <= j < rest.len() && i != j implies rest[i] != rest[j] by {
                    assert(rest[i] == entries[i] && rest[j] == entries[j]);
                }
            }
            if earlier.contains(last) {
                assert(rest.contains(last));
                let q = choose|q: int| 0 <= q < rest.len() && rest[q] == last;
                assert(entries[q] == entries[entries.len() - 1]);
            }
        }
    }
}

/// The names held by a vector of strings.
pub open spec fn names(v: Seq<String>) -> Seq<Seq<char>> {
    v.map_values(|s: String| s@)
}

/// The position of the first `needle` in `hay`, or the length of `hay`.
pub open spec fn first_position(hay: Seq<Seq<char>>, needle: Seq<char>) -> int
    decreases hay.len(),
{
    if hay.len() == 0 {
        0
    } else if hay[0] == needle {
        0
    } else {
        1 + first_position(hay.drop_first(), needle)
    }
}

/// `first_position` stays within the sequence, points at the needle when it
/// stops early, and has skipped only other names.
pub proof fn first_position_is_first(hay: Seq<Seq<char>>, needle: Seq<char>)
    ensures
        0 <= first_position(hay, needle) <= hay.len(),
        first_position(hay, needle) < hay.len() ==> hay[first_position(hay, needle)] == needle,
        forall|j: int| 0 <= j < first_position(hay, needle) ==> hay[j] != needle,
        first_position(hay, needle) == hay.len() <==> !hay.contains(needle),
    decreases hay.len(),
{
    if hay.len() == 0 {
    } else if hay[0] == needle {
        assert(hay.contains(needle));
    } else {
        let rest = hay.drop_first();
        first_position_is_first(rest, needle);
        let p = first_position(rest, needle);
        assert forall|j: int| 0 <= j < 1 + p implies hay[j] != needle by {
            if j > 0 {
                assert(rest[j - 1] == hay[j]);
            }
        }
        if p < rest.len() {
            assert(hay[1 + p] == rest[p]);
            assert(hay.contains(needle));
        } else {
            assert forall|j: int| 0 <= j < hay.len() implies hay[j] != needle by {}
        }
    }
}

/// What a pool holds: the free slots in the order in which they are handed
/// out, the slots that are checked out, oldest first, and the number of slots
/// the pool was made with.
pub struct PoolView {
    pub free: Seq<Seq<char>>,
    pub in_use: Seq<Seq<char>>,
    pub capacity: nat,
}

impl PoolView {
    /// Every slot is either free or checked out.
    pub open spec fn balanced(self) -> bool {
        self.free.len() + self.in_use.len() == self.capacity
    }

    /// No slot stands in the pool twice.
    pub open spec fn distinct(self) -> bool {
        (self.free + self.in_use).no_duplicates()
    }

    /// The pool after a checkout: the first free slot is checked out, and the
    /// last free slot takes its place. Without a free slot nothing changes.
    pub open spec fn reserve(self) -> PoolView {
        if self.free.len() == 0 {
            self
        } else {
            PoolView {
                free: self.free.update(0, self.free.last()).drop_last(),
                in_use: self.in_use.push(self.free[0]),
                capacity: self.capacity,
            }
        }
    }

    /// The pool after `name` is handed back: its oldest checkout ends and it
    /// joins the free slots at the end. A name that is not checked out changes
    /// nothing.
    pub open spec fn release(self, name: Seq<char>) -> PoolView {
        if self.in_use.contains(name) {
            PoolView {
                free: self.free.push(name),
                in_use: self.in_use.remove(first_position(self.in_use, name)),
                capacity: self.capacity,
            }
        } else {
            self
        }
    }
}

impl PoolView {
    /// A checkout keeps every slot accounted for, each once.
    pub proof fn reserve_keeps_order(self)
        requires
            self.balanced(),
            self.distinct(),
        ensures
            self.reserve().balanced(),
            self.reserve().distinct(),
            self.reserve().capacity == self.capacity,
    {
        if self.free.len() > 0 {
            let after = self.reserve();
            let all0 = self.free + self.in_use;
            let all1 = after.free + after.in_use;
            // Each place of the new order holds what some place of the old
            // order held, and no two hold the same.
            let back = |k: int|
                if k < after.free.len() {
                    if k == 0 {
                        self.free.len() - 1
                    } else {
                        k
                    }
                } else if k < all1.len() - 1 {
                    k + 1
                } else {
                    0
                };
            assert forall|i: int, j: int|
                0 <= i < all1.len() && 0 <= j < all1.len() && i != j implies all1[i] != all1[j] by {
                assert(all1[i] == all0[back(i)]);
                assert(all1[j] == all0[back(j)]);
                assert(back(i) != back(j));
            }
        }
    }

    /// A return keeps every slot accounted for, each once.
    pub proof fn release_keeps_order(self, name: Seq<char>)
        requires
            self.balanced(),
            self.distinct(),
        ensures
            self.release(name).balanced(),
            self.release(name).distinct(),
            self.release(name).capacity == self.capacity,
    {
        first_position_is_first(self.in_use, name);
        if self.in_use.contains(name) {
            let p = first_position(self.in_use, name);
            let after = self.release(name);
            let all0 = self.free + self.in_use;
            let all1 = after.free + after.in_use;
            let back = |k: int|
                if k < self.free.len() {
                    k
                } else if k == self.free.len() {
                    self.free.len() + p
                } else if k - 1 < self.free.len() + p {
                    k - 1
                } else {
                    k
                };
            assert forall|a: int, b: int|
                0 <= a < all1.len() && 0 <= b < all1.len() && a != b implies all1[a] != all1[b] by {
                assert(all1[a] == all0[back(a)]);
                assert(all1[b] == all0[back(b)]);
                assert(back(a) != back(b));
            }
        }
    }

    /// No slot is checked out twice.
    pub proof fn checkouts_are_distinct(self)
        requires
            self.distinct(),
        ensures
            self.in_use.no_duplicates(),
    {
        let all = self.free + self.in_use;
        assert forall|i: int, j: int|
            0 <= i < self.in_use.len() && 0 <= j < self.in_use.len() && i != j implies self.in_use[i]
            != self.in_use[j] by {
            assert(all[self.free.len() + i] == self.in_use[i]);
            assert(all[self.free.len() + j] == self.in_use[j]);
        }
    }
}

/// One use of the pool.
pub enum PoolOp {
    Reserve,
    Release(Seq<char>),
}

/// The pool after the uses `ops`, one after the other.
pub open spec fn run(pool: PoolView, ops: Seq<PoolOp>) -> PoolView
    decreases ops.len(),
{
    if ops.len() == 0 {
        pool
    } else {
        let before = run(pool, ops.drop_last());
        match ops.last() {
            PoolOp::Reserve => before.reserve(),
            PoolOp::Release(name) => before.release(name),
        }
    }
}

/// Whatever the order of checkouts and returns, the free and the checked out
/// slots of a pool add up to its capacity, the capacity stays, and no slot
/// comes to stand in the pool twice.
pub proof fn any_schedule_keeps_capacity(pool: PoolView, ops: Seq<PoolOp>)
    requires
        pool.balanced(),
        pool.distinct(),
    ensures
        run(pool, ops).balanced(),
        run(pool, ops).distinct(),
        run(pool, ops).capacity == pool.capacity,
    decreases ops.len(),
{
    if ops.len() > 0 {
        let before = run(pool, ops.drop_last());
        any_schedule_keeps_capacity(pool, ops.drop_last());
        match ops.last() {
            PoolOp::Reserve => {
                before.reserve_keeps_order();
            },
            PoolOp::Release(name) => {
                before.release_keeps_order(name);
            },
        }
    }
}

/// A pool of slots. A slot is either free or checked out, and the pool never
/// gains or loses one.
pub struct Cgroups {
    free: Vec<String>,
    in_use: Vec<String>,
    capacity: usize,
}

impl View for Cgroups {
    type V = PoolView;

    open spec fn view(&self) -> PoolView {
        PoolView {
            free: self.free_view(),
            in_use: self.in_use_view(),
            capacity: self.capacity_view(),
        }
    }
}

impl Cgroups {
    /// The free slots, in the order in which `reserve` hands them out.
    pub closed spec fn free_view(&self) -> Seq<Seq<char>> {
        names(self.free@)
    }

    /// The slots that are checked out, oldest first.
    pub closed spec fn in_use_view(&self) -> Seq<Seq<char>> {
        names(self.in_use@)
    }

    /// The number of slots the pool was made with.
    pub closed spec fn capacity_view(&self) -> nat {
        self.capacity as nat
    }

    /// Every slot is accounted for, every name is a slot's name, and no
    /// name stands in the pool twice.
    pub closed spec fn wf(&self) -> bool {
        &&& self.free@.len() + self.in_use@.len() == self.capacity
        &&& forall|i: int| 0 <= i < self.free@.len() ==> is_slot_name(#[trigger] self.free@[i]@)
        &&& forall|i: int|
            0 <= i < self.in_use@.len() ==> is_slot_name(#[trigger] self.in_use@[i]@)
        &&& (names(self.free@) + names(self.in_use@)).no_duplicates()
    }

    /// In a valid pool the free and the checked out slots add up to the
    /// capacity, all of them carry a slot's name, and none stands there twice.
    pub proof fn valid_pool_is_balanced(&self)
        requires
            self.wf(),
        ensures
            self@.balanced(),
            self@.distinct(),
            forall|i: int| 0 <= i < self@.free.len() ==> is_slot_name(#[trigger] self@.free[i]),
            forall|i: int| 0 <= i < self@.in_use.len() ==> is_slot_name(#[trigger] self@.in_use[i]),
    {
    }

    /// Builds the pool from the listing of the control group directory: its
    /// slots, in the order of the listing, all of them free. A listing that
    /// failed, or one that holds no slot, gives no pool.
    pub fn new(listing: Result<Vec<String>, String>) -> (res: Result<Cgroups, CgroupsError>)
        ensures
            match listing {
                Err(cause) => res == Err::<Cgroups, CgroupsError>(CgroupsError::Fetch(cause)),
                Ok(entries) => {
                    let kept = slots_in(names(entries@));
                    if kept.len() == 0 {
                        res == Err::<Cgroups, CgroupsError>(CgroupsError::NoFree)
                    } else {
                        &&& res is Ok
                        &&& res->Ok_0.wf()
                        &&& res->Ok_0@ == (PoolView {
                            free: kept,
                            in_use: Seq::empty(),
                            capacity: kept.len(),
                        })
                    }
                },
            },
    {
        match listing {
            Err(cause) => Err(CgroupsError::Fetch(cause)),
            Ok(entries) => {
                let free = get_cgroups(entries);
                if free.len() == 0 {
                    return Err(CgroupsError::NoFree);
                }
                let capacity = free.len();
                let pool = Cgroups { free, in_use: Vec::new(), capacity };
                assert(names(pool.in_use@) =~= Seq::<Seq<char>>::empty());
                assert(names(pool.free@) + names(pool.in_use@) =~= names(pool.free@));
                Ok(pool)
            },
        }
    }

    /// Checks out the first free slot. The last free slot takes its place in
    /// the order. With no free slot the pool stays as it is.
    pub fn reserve(&mut self) -> (res: Result<String, CgroupsError>)
        requires
            old(self).wf(),
        ensures
            final(self).wf(),
            final(self)@ == old(self)@.reserve(),
            old(self)@.free.len() == 0 ==> res == Err::<String, CgroupsError>(CgroupsError::NoFree),
            old(self)@.free.len() > 0 ==> {
                &&& res is Ok
                &&& res->Ok_0@ == old(self)@.free[0]
                &&& is_slot_name(res->Ok_0@)
            },
    {
        if self.free.len() == 0 {
            return Err(CgroupsError::NoFree);
        }
        let slot = self.free.swap_remove(0);
        let held = slot.clone();
        self.in_use.push(held);
        proof {
            assert(names(self.free@) =~= names(old(self).free@).update(
                0,
                names(old(self).free@).last(),
            ).drop_last());
            assert(names(self.in_use@) =~= names(old(self).in_use@).push(slot@));
            old(self)@.reserve_keeps_order();
        }
        Ok(slot)
    }

    /// Hands a slot back: its oldest checkout ends and it joins the free slots
    /// at the end. A name that is not checked out changes nothing.
    pub fn release(&mut self, cgroup: String)
        requires
            old(self).wf(),
        ensures
            final(self).wf(),
            final(self)@ == old(self)@.release(cgroup@),
    {
        proof {
            first_position_is_first(old(self).in_use_view(), cgroup@);
        }
        let mut i: usize = 0;
        while i < self.in_use.len()
            invariant
                *self == *old(self),
                self.wf(),
                i <= self.in_use.len(),
                forall|j: int| 0 <= j < i ==> names(self.in_use@)[j] != cgroup@,
            decreases self.in_use.len() - i,
        {
            if self.in_use[i] == cgroup {
                proof {
                    first_position_is_first(names(self.in_use@), cgroup@);
                    let p = first_position(names(self.in_use@), cgroup@);
                    assert(names(self.in_use@)[i as int] == cgroup@);
                    if p < i {
                        assert(names(self.in_use@)[p] != cgroup@);
                    }
                    assert(p == i);
                    assert(is_slot_name(self.in_use@[i as int]@));
                }
                let _ = self.in_use.remove(i);
                self.free.push(cgroup);
                proof {
                    assert(names(self.in_use@) =~= names(old(self).in_use@).remove(i as int));
                    assert(names(self.free@) =~= names(old(self).free@).push(cgroup@));
                    old(self)@.release_keeps_order(cgroup@);
                }
                return;
            }
            i += 1;
        }
        proof {
            assert(!names(self.in_use@).contains(cgroup@)) by {
                if names(self.in_use@).contains(cgroup@) {
                    let k = choose|k: int|
                        0 <= k < names(self.in_use@).len() && names(self.in_use@)[k] == cgroup@;
                    assert(names(self.in_use@)[k] != cgroup@);
                }
            }
        }
    }

    /// The number of free slots.
    pub fn free_count(&self) -> (n: usize)
        ensures
            n == self@.free.len(),
    {
        self.free.len()
    }

    /// The number of slots that are checked out.
    pub fn in_use_count(&self) -> (n: usize)
        ensures
            n == self@.in_use.len(),
    {
        self.in_use.len()
    }

    /// The number of slots the pool was made with.
    pub fn capacity(&self) -> (n: usize)
        ensures
            n == self@.capacity,
    {
        self.capacity
    }

    /// The free slots, in the order in which `reserve` hands them out.
    pub fn free(&self) -> (v: &Vec<String>)
        ensures
            names(v@) == self@.free,
    {
        &self.free
    }
}

/// Tells whether one of the names is `name`.
fn holds_name(kept: &Vec<String>, name: &String) -> (res: bool)
    ensures
        res == names(kept@).contains(name@),
{
    let mut i: usize = 0;
    while i < kept.len()
        invariant
            i <= kept.len(),
            forall|j: int| 0 <= j < i ==> names(kept@)[j] != name@,
        decreases kept.len() - i,
    {
        if kept[i] == *name {
            assert(names(kept@)[i as int] == name@);
            return true;
        }
        i += 1;
    }
    false
}

/// Picks the slots out of the listing of the control group directory: every
/// entry whose name begins with the slot prefix, once, in the order given.
pub fn get_cgroups(entries: Vec<String>) -> (kept: Vec<String>)
    ensures
        names(kept@) == slots_in(names(entries@)),
        forall|name: Seq<char>| #[trigger]
            names(kept@).contains(name) <==> names(entries@).contains(name) && is_slot_name(name),
        names(entries@).no_duplicates() ==> names(kept@) == names(entries@).filter(
            |n: Seq<char>| is_slot_name(n),
        ),
        forall|i: int| 0 <= i < kept@.len() ==> is_slot_name(#[trigger] kept@[i]@),
        names(kept@).no_duplicates(),
{
    let mut kept: Vec<String> = Vec::new();
    let mut i: usize = 0;
    proof {
        assert(names(entries@).subrange(0, 0) =~= Seq::<Seq<char>>::empty());
        assert(names(kept@) =~= Seq::<Seq<char>>::empty());
    }
    while i < entries.len()
        invariant
            i <= entries.len(),
            names(kept@) == slots_in(names(entries@).subrange(0, i as int)),
            forall|k: int| 0 <= k < kept@.len() ==> is_slot_name(#[trigger] kept@[k]@),
        decreases entries.len() - i,
    {
        let entry = &entries[i];
        let ghost before = names(kept@);
        proof {
            let upto = names(entries@).subrange(0, i + 1);
            assert(upto.drop_last() =~= names(entries@).subrange(0, i as int));
            assert(upto.last() == entry@);
        }
        if starts_with(entry.as_str().as_bytes(), "workerd_".as_bytes()) && !holds_name(
            &kept,
            entry,
        ) {
            kept.push(entry.clone());
            assert(names(kept@) =~= before.push(entry@));
        }
        i += 1;
    }
    proof {
        assert(names(entries@).subrange(0, i as int) =~= names(entries@));
        slots_in_facts(names(entries@));
    }
    kept
}

} // verus!
