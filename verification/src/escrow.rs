//! The escrow ledger: the sale's status, one booking entry per investor,
//! and the running total of booked units. The ledger maintains that the
//! total always equals the sum of the per-investor quantities, that no
//! investor holds two entries, and that the status leaves `Live` at most
//! once, never to return.

use vstd::prelude::*;
use crate::identity::Identity;

verus! {

/// The sale's lifecycle: it starts Live and resolves exactly once, to
/// Accepted or to Rejected; both are terminal.
#[derive(Clone, Copy, Debug, PartialEq, Eq, Structural)]
pub enum SaleStatus {
    Live,
    Accepted,
    Rejected,
}

/// One investor's reservation: how many units are booked, and whether the
/// investor's settlement step has already run.
pub struct BookingEntry {
    pub investor: Identity,
    pub quantity: u128,
    pub settled: bool,
}

/// No investor appears in two entries.
pub open spec fn unique_investors(s: Seq<BookingEntry>) -> bool {
    forall|i: int, j: int| 0 <= i < j < s.len() ==> s[i].investor@ != s[j].investor@
}

/// The sum of all booked quantities.
pub open spec fn sum_booked(s: Seq<BookingEntry>) -> int
    decreases s.len(),
{
    if s.len() == 0 {
        0
    } else {
        sum_booked(s.drop_last()) + s.last().quantity
    }
}

/// The quantity booked by the given investor, zero when absent.
pub open spec fn spec_booked_of(s: Seq<BookingEntry>, id: Seq<u8>) -> u128
    decreases s.len(),
{
    if s.len() == 0 {
        0
    } else if s.last().investor@ == id {
        s.last().quantity
    } else {
        spec_booked_of(s.drop_last(), id)
    }
}

/// Whether the given investor's settlement step has run, false when absent.
pub open spec fn spec_settled_of(s: Seq<BookingEntry>, id: Seq<u8>) -> bool
    decreases s.len(),
{
    if s.len() == 0 {
        false
    } else if s.last().investor@ == id {
        s.last().settled
    } else {
        spec_settled_of(s.drop_last(), id)
    }
}

/// Whether the given investor holds an entry at all.
pub open spec fn spec_has_booking(s: Seq<BookingEntry>, id: Seq<u8>) -> bool {
    exists|i: int| 0 <= i < s.len() && s[i].investor@ == id
}

/// Replacing an entry by another for the same investor adjusts the sum by
/// the difference of quantities and leaves every other investor's lookup
/// untouched.
pub proof fn lemma_update_entry(s: Seq<BookingEntry>, i: int, e: BookingEntry)
    requires
        0 <= i < s.len(),
        e.investor@ == s[i].investor@,
        unique_investors(s),
    ensures
        unique_investors(s.update(i, e)),
        sum_booked(s.update(i, e)) == sum_booked(s) - s[i].quantity + e.quantity,
        spec_booked_of(s.update(i, e), e.investor@) == e.quantity,
        spec_settled_of(s.update(i, e), e.investor@) == e.settled,
        forall|id: Seq<u8>| id != e.investor@ ==> spec_booked_of(#[trigger] s.update(i, e), id) == spec_booked_of(s, id),
        forall|id: Seq<u8>| id != e.investor@ ==> spec_settled_of(#[trigger] s.update(i, e), id) == spec_settled_of(s, id),
    decreases s.len(),
{
    let t = s.update(i, e);
    assert(forall|k: int| 0 <= k < s.len() && k != i ==> t[k] == s[k]);
    if i == s.len() - 1 {
        assert(t.drop_last() =~= s.drop_last());
        assert(t.last() == e);
        assert forall|id: Seq<u8>| id != e.investor@ implies
            spec_booked_of(t, id) == spec_booked_of(s, id)
            && spec_settled_of(t, id) == spec_settled_of(s, id) by {
            assert(spec_booked_of(t, id) == spec_booked_of(s.drop_last(), id));
            assert(spec_booked_of(s, id) == spec_booked_of(s.drop_last(), id));
        }
    } else {
        assert(t.drop_last() =~= s.drop_last().update(i, e));
        assert(s.drop_last()[i] == s[i]);
        lemma_update_entry(s.drop_last(), i, e);
        assert(t.last() == s.last());
        assert(s.last().investor@ != e.investor@);
        assert(spec_booked_of(t, e.investor@) == spec_booked_of(t.drop_last(), e.investor@));
        assert forall|id: Seq<u8>| id != e.investor@ implies
            spec_booked_of(t, id) == spec_booked_of(s, id)
            && spec_settled_of(t, id) == spec_settled_of(s, id) by {
            if s.last().investor@ == id {
                assert(spec_booked_of(t, id) == t.last().quantity);
                assert(spec_settled_of(t, id) == t.last().settled);
            } else {
                assert(spec_booked_of(t, id) == spec_booked_of(t.drop_last(), id));
                assert(spec_booked_of(s, id) == spec_booked_of(s.drop_last(), id));
                assert(spec_settled_of(t, id) == spec_settled_of(t.drop_last(), id));
                assert(spec_settled_of(s, id) == spec_settled_of(s.drop_last(), id));
                assert(spec_booked_of(t.drop_last(), id) == spec_booked_of(s.drop_last(), id));
                assert(spec_settled_of(t.drop_last(), id) == spec_settled_of(s.drop_last(), id));
            }
        }
    }
}

/// An entry's fields are exactly what the lookups report for its investor.
pub proof fn lemma_entry_lookup(s: Seq<BookingEntry>, i: int)
    requires
        0 <= i < s.len(),
        unique_investors(s),
    ensures
        spec_booked_of(s, s[i].investor@) == s[i].quantity,
        spec_settled_of(s, s[i].investor@) == s[i].settled,
    decreases s.len(),
{
    if i == s.len() - 1 {
    } else {
        assert(s.last().investor@ != s[i].investor@);
        assert(s.drop_last()[i] == s[i]);
        lemma_entry_lookup(s.drop_last(), i);
    }
}

/// An investor with no entry books nothing and is not settled.
pub proof fn lemma_lookup_absent(s: Seq<BookingEntry>, id: Seq<u8>)
    requires
        forall|i: int| 0 <= i < s.len() ==> s[i].investor@ != id,
    ensures
        spec_booked_of(s, id) == 0,
        !spec_settled_of(s, id),
    decreases s.len(),
{
    if s.len() > 0 {
        assert(forall|i: int| 0 <= i < s.drop_last().len() ==> s.drop_last()[i] == s[i]);
        lemma_lookup_absent(s.drop_last(), id);
    }
}

/// Every single entry's quantity is bounded by the sum of all of them.
pub proof fn lemma_entry_le_sum(s: Seq<BookingEntry>, i: int)
    requires
        0 <= i < s.len(),
    ensures
        s[i].quantity <= sum_booked(s),
        sum_booked(s) >= 0,
    decreases s.len(),
{
    lemma_sum_nonneg(s);
    if i == s.len() - 1 {
        lemma_sum_nonneg(s.drop_last());
    } else {
        assert(s.drop_last()[i] == s[i]);
        lemma_entry_le_sum(s.drop_last(), i);
    }
}

/// The sum of booked quantities is never negative.
pub proof fn lemma_sum_nonneg(s: Seq<BookingEntry>)
    ensures
        sum_booked(s) >= 0,
    decreases s.len(),
{
    if s.len() > 0 {
        lemma_sum_nonneg(s.drop_last());
    }
}

/// What an investor booked is bounded by the total of all bookings.
pub proof fn lemma_booked_le_sum(s: Seq<BookingEntry>, id: Seq<u8>)
    ensures
        spec_booked_of(s, id) <= sum_booked(s),
    decreases s.len(),
{
    lemma_sum_nonneg(s);
    if s.len() > 0 {
        lemma_sum_nonneg(s.drop_last());
        if s.last().investor@ != id {
            lemma_booked_le_sum(s.drop_last(), id);
        }
    }
}

/// The escrow ledger.
pub struct EscrowStore {
    pub sale_status: SaleStatus,
    pub booked_tokens: Vec<BookingEntry>,
    pub total_booked_tokens: u128,
}

impl EscrowStore {
    /// The ledger's invariant: entries are keyed uniquely by investor and
    /// the running total is exactly the sum of the entries.
    pub open spec fn wf(&self) -> bool {
        &&& unique_investors(self.booked_tokens@)
        &&& self.total_booked_tokens == sum_booked(self.booked_tokens@)
        &&& forall|i: int| 0 <= i < self.booked_tokens@.len()
            ==> (#[trigger] self.booked_tokens@[i]).investor.is_valid()
    }

    /// A fresh ledger: sale Live, nothing booked.
    pub fn default() -> (r: EscrowStore)
        ensures
            r.wf(),
            r.sale_status == SaleStatus::Live,
            r.booked_tokens@.len() == 0,
            r.total_booked_tokens == 0,
    {
        EscrowStore {
            sale_status: SaleStatus::Live,
            booked_tokens: Vec::new(),
            total_booked_tokens: 0,
        }
    }

    pub fn get_sale_status(&self) -> (r: &SaleStatus)
        ensures
            *r == self.sale_status,
    {
        &self.sale_status
    }

    pub fn get_booked_tokens(&self) -> (r: &Vec<BookingEntry>)
        ensures
            r@ == self.booked_tokens@,
    {
        &self.booked_tokens
    }

    pub fn get_total_booked_tokens(&self) -> (r: u128)
        ensures
            r == self.total_booked_tokens,
    {
        self.total_booked_tokens
    }

    /// Every investor that holds an entry, in entry order.
    pub fn get_participating_investors(&self) -> (r: Vec<Identity>)
        ensures
            r@.len() == self.booked_tokens@.len(),
            forall|i: int| 0 <= i < r@.len() ==> r@[i]@ == self.booked_tokens@[i].investor@,
    {
        let mut out: Vec<Identity> = Vec::new();
        let n = self.booked_tokens.len();
        let mut i: usize = 0;
        while i < n
            invariant
                i <= n,
                n == self.booked_tokens@.len(),
                out@.len() == i,
                forall|j: int| 0 <= j < i ==> out@[j]@ == self.booked_tokens@[j].investor@,
            decreases n - i,
        {
            out.push(self.booked_tokens[i].investor.duplicate());
            i = i + 1;
        }
        out
    }

    /// The index of the given investor's entry, if one exists.
    fn find_entry(&self, owner: &Identity) -> (r: Option<usize>)
        ensures
            match r {
                Some(i) => i < self.booked_tokens@.len() && self.booked_tokens@[i as int].investor@ == owner@,
                None => forall|i: int| 0 <= i < self.booked_tokens@.len()
                    ==> self.booked_tokens@[i].investor@ != owner@,
            },
    {
        let n = self.booked_tokens.len();
        let mut i: usize = 0;
        while i < n
            invariant
                i <= n,
                n == self.booked_tokens@.len(),
                forall|j: int| 0 <= j < i ==> self.booked_tokens@[j].investor@ != owner@,
            decreases n - i,
        {
            if self.booked_tokens[i].investor.same_as(owner) {
                return Some(i);
            }
            i = i + 1;
        }
        None
    }

    /// The quantity the given investor has booked, zero when absent.
    pub fn booked_of(&self, owner: &Identity) -> (r: u128)
        requires
            self.wf(),
        ensures
            r == spec_booked_of(self.booked_tokens@, owner@),
    {
        match self.find_entry(owner) {
            Some(i) => {
                proof {
                    lemma_entry_lookup(self.booked_tokens@, i as int);
                }
                self.booked_tokens[i].quantity
            },
            None => {
                proof {
                    lemma_lookup_absent(self.booked_tokens@, owner@);
                }
                0
            },
        }
    }

    /// Whether the given investor holds an entry.
    pub fn has_booking(&self, owner: &Identity) -> (r: bool)
        ensures
            r == spec_has_booking(self.booked_tokens@, owner@),
    {
        match self.find_entry(owner) {
            Some(i) => {
                proof {
                    assert(self.booked_tokens@[i as int].investor@ == owner@);
                }
                true
            },
            None => {
                proof {
                    if spec_has_booking(self.booked_tokens@, owner@) {
                        let w = choose|k: int| 0 <= k < self.booked_tokens@.len()
                            && self.booked_tokens@[k].investor@ == owner@;
                        assert(false);
                    }
                }
                false
            },
        }
    }

    /// Whether the given investor's settlement step has already run.
    pub fn settled_of(&self, owner: &Identity) -> (r: bool)
        requires
            self.wf(),
        ensures
            r == spec_settled_of(self.booked_tokens@, owner@),
    {
        match self.find_entry(owner) {
            Some(i) => {
                proof {
                    lemma_entry_lookup(self.booked_tokens@, i as int);
                }
                self.booked_tokens[i].settled
            },
            None => {
                proof {
                    lemma_lookup_absent(self.booked_tokens@, owner@);
                }
                false
            },
        }
    }

    /// Record a reservation: add to the investor's entry, or open one, and
    /// grow the running total by the same quantity. The total keeps equal to
    /// the sum of entries; every other investor's entry is untouched.
    pub fn book_tokens(&mut self, owner: &Identity, quantity: u128)
        requires
            old(self).wf(),
            owner.is_valid(),
            old(self).total_booked_tokens + quantity <= u128::MAX,
        ensures
            final(self).wf(),
            final(self).sale_status == old(self).sale_status,
            final(self).total_booked_tokens == old(self).total_booked_tokens + quantity,
            spec_booked_of(final(self).booked_tokens@, owner@)
                == spec_booked_of(old(self).booked_tokens@, owner@) + quantity,
            spec_settled_of(final(self).booked_tokens@, owner@)
                == spec_settled_of(old(self).booked_tokens@, owner@),
            forall|id: Seq<u8>| id != owner@ ==> spec_booked_of(final(self).booked_tokens@, id)
                == spec_booked_of(old(self).booked_tokens@, id),
            forall|id: Seq<u8>| id != owner@ ==> spec_settled_of(final(self).booked_tokens@, id)
                == spec_settled_of(old(self).booked_tokens@, id),
            spec_has_booking(final(self).booked_tokens@, owner@),
            forall|id: Seq<u8>| spec_has_booking(final(self).booked_tokens@, id)
                == (spec_has_booking(old(self).booked_tokens@, id) || id == owner@),
    {
        let ghost s0 = self.booked_tokens@;
        match self.find_entry(owner) {
            Some(i) => {
                proof {
                    lemma_entry_lookup(s0, i as int);
                    lemma_entry_le_sum(s0, i as int);
                }
                let current = self.booked_tokens[i].quantity;
                let settled = self.booked_tokens[i].settled;
                let entry = BookingEntry {
                    investor: owner.duplicate(),
                    quantity: current + quantity,
                    settled,
                };
                proof {
                    lemma_update_entry(s0, i as int, entry);
                }
                self.booked_tokens.set(i, entry);
                self.total_booked_tokens = self.total_booked_tokens + quantity;
                proof {
                    assert(self.booked_tokens@[i as int].investor@ == owner@);
                    assert(spec_has_booking(self.booked_tokens@, owner@));
                    assert forall|id: Seq<u8>| spec_has_booking(self.booked_tokens@, id)
                        == (spec_has_booking(s0, id) || id == owner@) by {
                        if spec_has_booking(s0, id) {
                            let w = choose|k: int| 0 <= k < s0.len() && s0[k].investor@ == id;
                            if w == i {
                                assert(self.booked_tokens@[i as int].investor@ == id);
                            } else {
                                assert(self.booked_tokens@[w].investor@ == id);
                            }
                        }
                        if id == owner@ {
                            assert(self.booked_tokens@[i as int].investor@ == id);
                        }
                        if spec_has_booking(self.booked_tokens@, id) {
                            let w = choose|k: int| 0 <= k < self.booked_tokens@.len()
                                && self.booked_tokens@[k].investor@ == id;
                            if w == i {
                                assert(id == owner@);
                            } else {
                                assert(s0[w].investor@ == id);
                            }
                        }
                    }
                }
            },
            None => {
                proof {
                    lemma_lookup_absent(s0, owner@);
                }
                let entry = BookingEntry {
                    investor: owner.duplicate(),
                    quantity,
                    settled: false,
                };
                self.booked_tokens.push(entry);
                self.total_booked_tokens = self.total_booked_tokens + quantity;
                proof {
                    let s1 = self.booked_tokens@;
                    assert(s1.drop_last() =~= s0);
                    assert(s1.last().investor@ == owner@);
                    assert(unique_investors(s1)) by {
                        assert forall|i: int, j: int| 0 <= i < j < s1.len()
                            implies s1[i].investor@ != s1[j].investor@ by {
                            if j == s1.len() - 1 {
                                assert(s1[i] == s0[i]);
                            } else {
                                assert(s1[i] == s0[i] && s1[j] == s0[j]);
                            }
                        }
                    }
                    assert(spec_has_booking(s1, owner@)) by {
                        assert(s1[s1.len() - 1].investor@ == owner@);
                    }
                    assert forall|id: Seq<u8>| spec_has_booking(s1, id)
                        == (spec_has_booking(s0, id) || id == owner@) by {
                        if spec_has_booking(s0, id) {
                            let w = choose|k: int| 0 <= k < s0.len() && s0[k].investor@ == id;
                            assert(s1[w].investor@ == id);
                        }
                        if id == owner@ {
                            assert(s1[s1.len() - 1].investor@ == id);
                        }
                        if spec_has_booking(s1, id) {
                            let w = choose|k: int| 0 <= k < s1.len() && s1[k].investor@ == id;
                            if w < s0.len() {
                                assert(s0[w].investor@ == id);
                            }
                        }
                    }
                }
            },
        }
    }

    /// Resolve a Live sale to Accepted; bookings are retained as the audit
    /// trail. Accepted is terminal: no operation of the store leaves it.
    pub fn accept_sale(&mut self)
        requires
            old(self).sale_status == SaleStatus::Live,
        ensures
            final(self).sale_status == SaleStatus::Accepted,
            final(self).booked_tokens@ == old(self).booked_tokens@,
            final(self).total_booked_tokens == old(self).total_booked_tokens,
    {
        self.sale_status = SaleStatus::Accepted;
    }

    /// Resolve a Live sale to Rejected; bookings are retained as the audit
    /// trail. Rejected is terminal: no operation of the store leaves it.
    pub fn reject_sale(&mut self)
        requires
            old(self).sale_status == SaleStatus::Live,
        ensures
            final(self).sale_status == SaleStatus::Rejected,
            final(self).booked_tokens@ == old(self).booked_tokens@,
            final(self).total_booked_tokens == old(self).total_booked_tokens,
    {
        self.sale_status = SaleStatus::Rejected;
    }

    /// Flag the investor's entry as settled, leaving quantity and total
    /// untouched. The entry must exist.
    pub fn mark_settled(&mut self, owner: &Identity)
        requires
            old(self).wf(),
            spec_has_booking(old(self).booked_tokens@, owner@),
        ensures
            final(self).wf(),
            final(self).sale_status == old(self).sale_status,
            final(self).total_booked_tokens == old(self).total_booked_tokens,
            spec_settled_of(final(self).booked_tokens@, owner@),
            spec_booked_of(final(self).booked_tokens@, owner@)
                == spec_booked_of(old(self).booked_tokens@, owner@),
            forall|id: Seq<u8>| id != owner@ ==> spec_booked_of(final(self).booked_tokens@, id)
                == spec_booked_of(old(self).booked_tokens@, id),
            forall|id: Seq<u8>| id != owner@ ==> spec_settled_of(final(self).booked_tokens@, id)
                == spec_settled_of(old(self).booked_tokens@, id),
            forall|id: Seq<u8>| spec_has_booking(final(self).booked_tokens@, id)
                == spec_has_booking(old(self).booked_tokens@, id),
    {
        let ghost s0 = self.booked_tokens@;
        match self.find_entry(owner) {
            Some(i) => {
                proof {
                    lemma_entry_lookup(s0, i as int);
                }
                let quantity = self.booked_tokens[i].quantity;
                let entry = BookingEntry {
                    investor: owner.duplicate(),
                    quantity,
                    settled: true,
                };
                proof {
                    lemma_update_entry(s0, i as int, entry);
                }
                self.booked_tokens.set(i, entry);
                proof {
                    assert forall|id: Seq<u8>| spec_has_booking(self.booked_tokens@, id)
                        == spec_has_booking(s0, id) by {
                        if spec_has_booking(s0, id) {
                            let w = choose|k: int| 0 <= k < s0.len() && s0[k].investor@ == id;
                            if w == i {
                                assert(self.booked_tokens@[i as int].investor@ == id);
                            } else {
                                assert(self.booked_tokens@[w].investor@ == id);
                            }
                        }
                        if spec_has_booking(self.booked_tokens@, id) {
                            let w = choose|k: int| 0 <= k < self.booked_tokens@.len()
                                && self.booked_tokens@[k].investor@ == id;
                            if w == i {
                                assert(s0[i as int].investor@ == id);
                            } else {
                                assert(s0[w].investor@ == id);
                            }
                        }
                    }
                }
            },
            None => {
                proof {
                    let w = choose|k: int| 0 <= k < s0.len() && s0[k].investor@ == owner@;
                    assert(false);
                }
            },
        }
    }
}

} // verus!
