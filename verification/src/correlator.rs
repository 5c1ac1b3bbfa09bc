//! The client-side correlator: issues per-call identifiers, parks a
//! waiter under each identifier, and resolves exactly the waiter whose
//! identifier a reply carries, whatever order replies arrive in.

use vstd::prelude::*;

verus! {

/// A pending-call table entry: the call's identifier and the handle of
/// the waiter parked for its reply.
pub type PendingEntry = (u128, u64);

/// The waiter parked under `id`, if any: the first entry with that key.
pub open spec fn spec_lookup(s: Seq<PendingEntry>, id: u128) -> Option<u64>
    decreases s.len(),
{
    if s.len() == 0 {
        None
    } else if s[0].0 == id {
        Some(s[0].1)
    } else {
        spec_lookup(s.skip(1), id)
    }
}

/// The table without the first entry keyed `id`.
pub open spec fn spec_remove(s: Seq<PendingEntry>, id: u128) -> Seq<PendingEntry>
    decreases s.len(),
{
    if s.len() == 0 {
        s
    } else if s[0].0 == id {
        s.skip(1)
    } else {
        seq![s[0]] + spec_remove(s.skip(1), id)
    }
}

/// No two pending calls share an identifier.
pub open spec fn unique_ids(s: Seq<PendingEntry>) -> bool {
    forall|i: int, j: int|
        0 <= i < j < s.len() ==> (#[trigger] s[i]).0 != (#[trigger] s[j]).0
}

/// A lookup succeeds exactly when some entry carries the identifier.
pub proof fn lemma_lookup_some_iff(s: Seq<PendingEntry>, id: u128)
    ensures
        spec_lookup(s, id) is Some <==> exists|i: int| 0 <= i < s.len() && (#[trigger] s[i]).0
            == id,
    decreases s.len(),
{
    if s.len() > 0 {
        lemma_lookup_some_iff(s.skip(1), id);
        if s[0].0 != id && spec_lookup(s.skip(1), id) is Some {
            let i = choose|i: int| 0 <= i < s.skip(1).len() && (#[trigger] s.skip(1)[i]).0 == id;
            assert(s[i + 1].0 == id);
        }
        if s[0].0 != id && (exists|i: int| 0 <= i < s.len() && (#[trigger] s[i]).0 == id) {
            let i = choose|i: int| 0 <= i < s.len() && (#[trigger] s[i]).0 == id;
            assert(i >= 1);
            assert(s.skip(1)[i - 1].0 == id);
        }
    }
}

/// Removing one identifier leaves every other identifier's waiter alone.
pub proof fn lemma_remove_keeps_others(s: Seq<PendingEntry>, removed: u128, other: u128)
    requires
        removed != other,
    ensures
        spec_lookup(spec_remove(s, removed), other) == spec_lookup(s, other),
    decreases s.len(),
{
    if s.len() > 0 {
        lemma_remove_keeps_others(s.skip(1), removed, other);
        if s[0].0 != removed {
            let r = seq![s[0]] + spec_remove(s.skip(1), removed);
            assert(r[0] == s[0]);
            assert(r.skip(1) =~= spec_remove(s.skip(1), removed));
        }
    }
}

/// With unique identifiers, a removed identifier is gone.
pub proof fn lemma_remove_removes(s: Seq<PendingEntry>, id: u128)
    requires
        unique_ids(s),
    ensures
        spec_lookup(spec_remove(s, id), id) is None,
    decreases s.len(),
{
    if s.len() > 0 {
        assert(unique_ids(s.skip(1))) by {
            assert(forall|i: int|
                0 <= i < s.skip(1).len() ==> #[trigger] s.skip(1)[i] == s[i + 1]);
        }
        if s[0].0 == id {
            lemma_lookup_some_iff(s.skip(1), id);
            if spec_lookup(s.skip(1), id) is Some {
                let i = choose|i: int|
                    0 <= i < s.skip(1).len() && (#[trigger] s.skip(1)[i]).0 == id;
                assert(s[i + 1].0 == s[0].0);
                assert(false);
            }
        } else {
            lemma_remove_removes(s.skip(1), id);
            let r = seq![s[0]] + spec_remove(s.skip(1), id);
            assert(r[0] == s[0]);
            assert(r.skip(1) =~= spec_remove(s.skip(1), id));
        }
    }
}

/// Removing an identifier that is not pending changes nothing.
pub proof fn lemma_remove_absent(s: Seq<PendingEntry>, id: u128)
    requires
        spec_lookup(s, id) is None,
    ensures
        spec_remove(s, id) =~= s,
    decreases s.len(),
{
    if s.len() > 0 {
        lemma_remove_absent(s.skip(1), id);
        assert(seq![s[0]] + s.skip(1) =~= s);
    }
}

/// Removal keeps identifiers unique.
pub proof fn lemma_remove_keeps_unique(s: Seq<PendingEntry>, id: u128)
    requires
        unique_ids(s),
    ensures
        unique_ids(spec_remove(s, id)),
    decreases s.len(),
{
    if s.len() > 0 {
        assert(unique_ids(s.skip(1))) by {
            assert(forall|i: int|
                0 <= i < s.skip(1).len() ==> #[trigger] s.skip(1)[i] == s[i + 1]);
        }
        if s[0].0 != id {
            lemma_remove_keeps_unique(s.skip(1), id);
            let r = seq![s[0]] + spec_remove(s.skip(1), id);
            assert(forall|i: int|
                0 <= i < spec_remove(s.skip(1), id).len() ==> #[trigger] r[i + 1] == spec_remove(
                    s.skip(1),
                    id,
                )[i]);
            lemma_remove_is_subset(s.skip(1), id);
        }
    }
}

/// Every entry that survives a removal was in the table before.
pub proof fn lemma_remove_is_subset(s: Seq<PendingEntry>, id: u128)
    ensures
        forall|i: int|
            0 <= i < spec_remove(s, id).len() ==> exists|j: int|
                0 <= j < s.len() && #[trigger] spec_remove(s, id)[i] == s[j],
    decreases s.len(),
{
    if s.len() > 0 {
        lemma_remove_is_subset(s.skip(1), id);
        if s[0].0 == id {
            assert(forall|i: int|
                0 <= i < spec_remove(s, id).len() ==> #[trigger] spec_remove(s, id)[i] == s[i
                    + 1]);
        } else {
            let r = seq![s[0]] + spec_remove(s.skip(1), id);
            assert forall|i: int| 0 <= i < r.len() implies exists|j: int|
                0 <= j < s.len() && #[trigger] r[i] == s[j] by {
                if i == 0 {
                    assert(r[0] == s[0]);
                } else {
                    assert(r[i] == spec_remove(s.skip(1), id)[i - 1]);
                    let j = choose|j: int|
                        0 <= j < s.skip(1).len() && #[trigger] spec_remove(s.skip(1), id)[i - 1]
                            == s.skip(1)[j];
                    assert(r[i] == s[j + 1]);
                }
            }
        }
    }
}

/// The pending-call table: one waiter per in-flight identifier.
#[derive(Debug)]
pub struct PendingMap {
    entries: Vec<PendingEntry>,
}

impl PendingMap {
    /// The entries, in insertion order.
    pub closed spec fn view(self) -> Seq<PendingEntry> {
        self.entries@
    }

    /// Identifiers are pairwise distinct.
    pub open spec fn wf(self) -> bool {
        unique_ids(self@)
    }

    /// An empty table.
    pub fn new() -> (r: Self)
        ensures
            r@ == Seq::<PendingEntry>::empty(),
            r.wf(),
    {
        PendingMap { entries: Vec::new() }
    }

    /// How many calls are pending.
    pub fn len(&self) -> (n: usize)
        ensures
            n == self@.len(),
    {
        self.entries.len()
    }

    /// Parks `waiter` under the fresh identifier `id`.
    pub fn register(&mut self, id: u128, waiter: u64)
        requires
            old(self).wf(),
            spec_lookup(old(self)@, id) is None,
        ensures
            final(self)@ == old(self)@.push((id, waiter)),
            final(self).wf(),
            spec_lookup(final(self)@, id) == Some(waiter),
    {
        self.entries.push((id, waiter));
        proof {
            lemma_lookup_some_iff(old(self)@, id);
            assert(unique_ids(self@)) by {
                assert(forall|i: int|
                    0 <= i < old(self)@.len() ==> #[trigger] self@[i] == old(self)@[i]);
            }
            lemma_lookup_push(old(self)@, id, waiter);
        }
    }

    /// Takes the waiter parked under `id`, if one is pending: exactly that
    /// entry leaves the table, and an unknown identifier changes nothing.
    pub fn resolve(&mut self, id: u128) -> (r: Option<u64>)
        requires
            old(self).wf(),
        ensures
            r == spec_lookup(old(self)@, id),
            final(self)@ == spec_remove(old(self)@, id),
            final(self).wf(),
            r is None ==> final(self)@ == old(self)@,
            spec_lookup(final(self)@, id) is None,
    {
        let ghost s0 = self@;
        let mut i: usize = 0;
        let n = self.entries.len();
        loop
            invariant
                i <= n == self@.len(),
                self@ == s0,
                s0 == old(self)@,
                unique_ids(s0),
                forall|j: int| 0 <= j < i ==> (#[trigger] s0[j]).0 != id,
            decreases n - i,
        {
            if i == n {
                proof {
                    lemma_lookup_none_from_no_index(s0, id);
                    lemma_remove_absent(s0, id);
                }
                return None;
            }
            if self.entries[i].0 == id {
                let w = self.entries[i].1;
                self.entries.remove(i);
                proof {
                    lemma_first_match_semantics(s0, id, i as int);
                    lemma_remove_keeps_unique(s0, id);
                    lemma_remove_removes(s0, id);
                    assert(self@ =~= s0.remove(i as int));
                }
                return Some(w);
            }
            i = i + 1;
        }
    }
}

/// A lookup that scanned every entry without a match finds nothing.
pub proof fn lemma_lookup_none_from_no_index(s: Seq<PendingEntry>, id: u128)
    requires
        forall|j: int| 0 <= j < s.len() ==> (#[trigger] s[j]).0 != id,
    ensures
        spec_lookup(s, id) is None,
{
    lemma_lookup_some_iff(s, id);
}

/// Pushing a fresh entry leaves other lookups alone and adds its own.
pub proof fn lemma_lookup_push(s: Seq<PendingEntry>, id: u128, waiter: u64)
    requires
        spec_lookup(s, id) is None,
    ensures
        spec_lookup(s.push((id, waiter)), id) == Some(waiter),
    decreases s.len(),
{
    if s.len() > 0 {
        lemma_lookup_push(s.skip(1), id, waiter);
        assert(s.push((id, waiter)).skip(1) =~= s.skip(1).push((id, waiter)));
    }
}

/// When index `k` is the first match, the recursive lookup and removal
/// agree with taking entry `k` out.
pub proof fn lemma_first_match_semantics(s: Seq<PendingEntry>, id: u128, k: int)
    requires
        0 <= k < s.len(),
        s[k].0 == id,
        forall|j: int| 0 <= j < k ==> (#[trigger] s[j]).0 != id,
    ensures
        spec_lookup(s, id) == Some(s[k].1),
        spec_remove(s, id) =~= s.remove(k),
    decreases s.len(),
{
    if k == 0 {
        assert(s.skip(1) =~= s.remove(0));
    } else {
        assert(forall|j: int|
            0 <= j < k - 1 ==> #[trigger] s.skip(1)[j] == s[j + 1]);
        lemma_first_match_semantics(s.skip(1), id, k - 1);
        assert(seq![s[0]] + s.skip(1).remove(k - 1) =~= s.remove(k));
    }
}

/// The identifier well: hands out one fresh identifier per call, above
/// every identifier it has handed out before.
#[derive(Debug)]
pub struct Correlator {
    next_id: u128,
    pending: PendingMap,
}

impl Correlator {
    /// The pending-call table.
    pub closed spec fn view(self) -> Seq<PendingEntry> {
        self.pending@
    }

    /// The identifier the next call will get.
    pub closed spec fn spec_next_id(self) -> u128 {
        self.next_id
    }

    /// Identifiers are unique and every pending one is below the well.
    pub closed spec fn wf(self) -> bool {
        &&& self.pending.wf()
        &&& forall|i: int| 0 <= i < self@.len() ==> (#[trigger] self@[i]).0 < self.next_id
    }

    /// A correlator with nothing pending.
    pub fn new() -> (r: Self)
        ensures
            r@ == Seq::<PendingEntry>::empty(),
            r.wf(),
            r.spec_next_id() == 0,
    {
        Correlator { next_id: 0, pending: PendingMap::new() }
    }

    /// How many calls are pending.
    pub fn pending_len(&self) -> (n: usize)
        ensures
            n == self@.len(),
    {
        self.pending.len()
    }

    /// Issues a fresh identifier and parks `waiter` under it.  The new
    /// identifier collides with no pending call.
    pub fn issue(&mut self, waiter: u64) -> (id: u128)
        requires
            old(self).wf(),
            old(self).spec_next_id() < u128::MAX,
        ensures
            final(self).wf(),
            id == old(self).spec_next_id(),
            spec_lookup(old(self)@, id) is None,
            final(self)@ == old(self)@.push((id, waiter)),
            final(self).spec_next_id() == id + 1,
            spec_lookup(final(self)@, id) == Some(waiter),
    {
        let id = self.next_id;
        proof {
            lemma_lookup_some_iff(self@, id);
        }
        self.pending.register(id, waiter);
        self.next_id = self.next_id + 1;
        id
    }

    /// Hands a reply's identifier to the table: the matching waiter, if
    /// one is pending.
    pub fn resolve(&mut self, id: u128) -> (r: Option<u64>)
        requires
            old(self).wf(),
        ensures
            final(self).wf(),
            r == spec_lookup(old(self)@, id),
            final(self)@ == spec_remove(old(self)@, id),
            spec_lookup(final(self)@, id) is None,
            r is None ==> final(self)@ == old(self)@,
            final(self).spec_next_id() == old(self).spec_next_id(),
    {
        let r = self.pending.resolve(id);
        proof {
            lemma_remove_is_subset(old(self)@, id);
        }
        r
    }
}

/// Delivering the replies to two distinct pending calls in either order
/// resolves each call's own waiter, never the other's: resolving one
/// identifier hands back exactly its waiter and leaves the other call
/// pending with its waiter untouched.
pub proof fn lemma_correlation_independence(
    s: Seq<PendingEntry>,
    a: u128,
    wa: u64,
    b: u128,
    wb: u64,
)
    requires
        unique_ids(s),
        a != b,
        spec_lookup(s, a) == Some(wa),
        spec_lookup(s, b) == Some(wb),
    ensures
        spec_lookup(spec_remove(s, b), a) == Some(wa),
        spec_lookup(spec_remove(s, b), b) is None,
        spec_lookup(spec_remove(spec_remove(s, b), a), a) is None,
{
    lemma_remove_keeps_others(s, b, a);
    lemma_remove_removes(s, b);
    lemma_remove_keeps_unique(s, b);
    lemma_remove_removes(spec_remove(s, b), a);
}

/// A reply whose identifier matches no pending call resolves nothing and
/// disturbs nothing: every pending call keeps its own waiter.
pub proof fn lemma_unknown_id_harmless(s: Seq<PendingEntry>, id: u128)
    requires
        spec_lookup(s, id) is None,
    ensures
        spec_remove(s, id) == s,
        forall|other: u128| spec_lookup(#[trigger] spec_remove(s, id), other) == spec_lookup(
            s,
            other,
        ),
{
    lemma_remove_absent(s, id);
}

} // verus!
