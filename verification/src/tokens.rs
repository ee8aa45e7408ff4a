//! The ownership ledger: one record per minted unit, keyed by a
//! monotonically assigned token id. Records are created by settlement,
//! re-owned by transfer, and never deleted. The index from account to held
//! token ids is derived from the records on demand, so it can never drift
//! from them.

use vstd::prelude::*;
use crate::identity::Identity;
use crate::subaccount::zero_sub;

verus! {

/// One ownership record: a unit of the offering and who holds it, under
/// which sub-identifier.
pub struct OwnershipRecord {
    pub token_id: u32,
    pub owner: Identity,
    pub subaccount: Option<Vec<u8>>,
}

/// A sub-identifier as its bytes, the canonical all-zero value when absent.
pub open spec fn canon_sub(s: Option<Seq<u8>>) -> Seq<u8> {
    match s {
        Some(v) => v,
        None => zero_sub(),
    }
}

/// The view of an optional sub-identifier vector.
pub open spec fn sub_view(s: Option<Vec<u8>>) -> Option<Seq<u8>> {
    match s {
        Some(v) => Some(v@),
        None => None,
    }
}

/// Whether a record is held by the given account, comparing the
/// sub-identifier against the canonical all-zero value when absent.
pub open spec fn matches_account(r: OwnershipRecord, owner: Seq<u8>, sub: Seq<u8>) -> bool {
    r.owner@ == owner && canon_sub(sub_view(r.subaccount)) == sub
}

/// Whether some record carries the given token id.
pub open spec fn spec_has_token(s: Seq<OwnershipRecord>, id: u32) -> bool {
    exists|i: int| 0 <= i < s.len() && s[i].token_id == id
}

/// Token ids in strictly increasing order of position.
pub open spec fn ids_strictly_increasing(s: Seq<OwnershipRecord>) -> bool {
    forall|i: int, j: int| 0 <= i < j < s.len() ==> s[i].token_id < s[j].token_id
}

/// The sequence of all token ids, in record order.
pub open spec fn ids_of(s: Seq<OwnershipRecord>) -> Seq<u32> {
    Seq::new(s.len(), |i: int| s[i].token_id)
}

/// The token ids held by the given account, in record order.
pub open spec fn matched_ids(s: Seq<OwnershipRecord>, owner: Seq<u8>, sub: Seq<u8>) -> Seq<u32>
    decreases s.len(),
{
    if s.len() == 0 {
        seq![]
    } else if matches_account(s.last(), owner, sub) {
        matched_ids(s.drop_last(), owner, sub).push(s.last().token_id)
    } else {
        matched_ids(s.drop_last(), owner, sub)
    }
}

/// The derived owner index: the set of token ids the account holds.
pub open spec fn owned_ids(s: Seq<OwnershipRecord>, owner: Seq<u8>, sub: Seq<u8>) -> Set<u32> {
    Set::new(|id: u32| exists|i: int| 0 <= i < s.len() && s[i].token_id == id
        && matches_account(s[i], owner, sub))
}

/// A sequence of ids in strictly increasing order.
pub open spec fn sorted_strict(s: Seq<u32>) -> bool {
    forall|i: int, j: int| 0 <= i < j < s.len() ==> s[i] < s[j]
}

/// The record carrying the given token id, where one exists.
pub open spec fn spec_record_of(s: Seq<OwnershipRecord>, id: u32) -> OwnershipRecord {
    s[choose|i: int| 0 <= i < s.len() && s[i].token_id == id]
}

/// With ids strictly increasing, the record at any position carrying the
/// id is the record the id denotes.
pub proof fn lemma_record_of_unique(s: Seq<OwnershipRecord>, id: u32, i: int)
    requires
        ids_strictly_increasing(s),
        0 <= i < s.len(),
        s[i].token_id == id,
    ensures
        spec_record_of(s, id) == s[i],
{
    assert(spec_has_token(s, id));
    let w = choose|k: int| 0 <= k < s.len() && s[k].token_id == id;
    if w != i {
        assert(s[w].token_id < s[i].token_id || s[i].token_id < s[w].token_id);
    }
}

/// The ownership map the records denote: each existing token id to its
/// holder's raw bytes and sub-identifier.
pub open spec fn owner_map(s: Seq<OwnershipRecord>) -> Map<u32, (Seq<u8>, Option<Seq<u8>>)> {
    Map::new(
        |id: u32| spec_has_token(s, id),
        |id: u32| (spec_record_of(s, id).owner@, sub_view(spec_record_of(s, id).subaccount)),
    )
}

/// Re-owning the record at one position moves exactly that id in the
/// ownership map.
pub proof fn lemma_owner_map_update(
    s0: Seq<OwnershipRecord>,
    s1: Seq<OwnershipRecord>,
    idx: int,
    id: u32,
    owner: Seq<u8>,
    sub: Option<Seq<u8>>,
)
    requires
        ids_strictly_increasing(s0),
        0 <= idx < s0.len(),
        s0[idx].token_id == id,
        s1.len() == s0.len(),
        forall|i: int| 0 <= i < s0.len() && i != idx ==> s1[i] == s0[i],
        s1[idx].token_id == id,
        s1[idx].owner@ == owner,
        sub_view(s1[idx].subaccount) == sub,
    ensures
        owner_map(s1) == owner_map(s0).insert(id, (owner, sub)),
{
    assert(forall|i: int| 0 <= i < s1.len()
        ==> (#[trigger] s1[i]).token_id == s0[i].token_id);
    assert(ids_strictly_increasing(s1));
    assert forall|x: u32| spec_has_token(s1, x) == spec_has_token(s0, x) by {
        if spec_has_token(s0, x) {
            let w = choose|k: int| 0 <= k < s0.len() && s0[k].token_id == x;
            assert(s1[w].token_id == x);
        }
        if spec_has_token(s1, x) {
            let w = choose|k: int| 0 <= k < s1.len() && s1[k].token_id == x;
            assert(s0[w].token_id == x);
        }
    }
    assert forall|x: u32| spec_has_token(s1, x) && x != id
        implies spec_record_of(s1, x) == spec_record_of(s0, x) by {
        let w = choose|k: int| 0 <= k < s0.len() && s0[k].token_id == x;
        assert(w != idx);
        assert(s1[w] == s0[w]);
        lemma_record_of_unique(s0, x, w);
        lemma_record_of_unique(s1, x, w);
    }
    lemma_record_of_unique(s1, id, idx);
    assert(owner_map(s1) =~= owner_map(s0).insert(id, (owner, sub)));
}

/// An owned copy of an optional sub-identifier vector.
pub fn clone_sub(o: &Option<Vec<u8>>) -> (r: Option<Vec<u8>>)
    ensures
        sub_view(r) == sub_view(*o),
{
    match o {
        Some(v) => {
            let n = v.len();
            let mut out: Vec<u8> = Vec::new();
            let mut i: usize = 0;
            while i < n
                invariant
                    i <= n,
                    n == v@.len(),
                    out@ == v@.take(i as int),
                decreases n - i,
            {
                out.push(v[i]);
                proof {
                    assert(out@ =~= v@.take(i + 1));
                }
                i = i + 1;
            }
            proof {
                assert(v@.take(n as int) =~= v@);
            }
            Some(out)
        },
        None => None,
    }
}

/// Every id an account holds is some record's id, and the held ids keep the
/// records' strictly increasing order.
pub proof fn lemma_matched_ids_sorted(s: Seq<OwnershipRecord>, owner: Seq<u8>, sub: Seq<u8>)
    requires
        ids_strictly_increasing(s),
    ensures
        sorted_strict(matched_ids(s, owner, sub)),
        forall|k: int| 0 <= k < matched_ids(s, owner, sub).len()
            ==> spec_has_token(s, #[trigger] matched_ids(s, owner, sub)[k]),
    decreases s.len(),
{
    if s.len() > 0 {
        let d = s.drop_last();
        assert(forall|i: int| 0 <= i < d.len() ==> d[i] == s[i]);
        lemma_matched_ids_sorted(d, owner, sub);
        let m = matched_ids(s, owner, sub);
        let md = matched_ids(d, owner, sub);
        assert forall|k: int| 0 <= k < md.len()
            implies #[trigger] md[k] < s.last().token_id && spec_has_token(s, md[k]) by {
            assert(spec_has_token(d, md[k]));
            let i = choose|i: int| 0 <= i < d.len() && d[i].token_id == md[k];
            assert(s[i].token_id < s[s.len() - 1].token_id);
            assert(s[i].token_id == md[k]);
        }
        if matches_account(s.last(), owner, sub) {
            assert(m == md.push(s.last().token_id));
            assert forall|k: int| 0 <= k < m.len()
                implies spec_has_token(s, #[trigger] m[k]) by {
                if k < md.len() {
                    assert(m[k] == md[k]);
                } else {
                    assert(m[k] == s[s.len() - 1].token_id);
                    assert(spec_has_token(s, s[s.len() - 1].token_id));
                }
            }
            assert forall|i: int, j: int| 0 <= i < j < m.len() implies m[i] < m[j] by {
                if j < md.len() {
                    assert(md[i] < md[j]);
                } else {
                    assert(m[i] == md[i] && m[j] == s.last().token_id);
                }
            }
        } else {
            assert(m == md);
        }
    }
}

/// The first position whose id lies strictly above the cursor.
pub open spec fn first_above(s: Seq<u32>, prev: u32) -> int
    decreases s.len(),
{
    if s.len() == 0 {
        0
    } else if s[0] > prev {
        0
    } else {
        1 + first_above(s.drop_first(), prev)
    }
}

/// The page a cursor selects: the run of ids strictly above the cursor,
/// cut to the page size.
pub open spec fn spec_page(s: Seq<u32>, prev: u32, take: int) -> Seq<u32> {
    let fa = first_above(s, prev);
    let k = if take <= s.len() - fa { take } else { s.len() - fa };
    s.subrange(fa, fa + k)
}

/// A position below which every id is at most the cursor, and at which the
/// ids move above it, is exactly where the page starts.
proof fn lemma_first_above_at(s: Seq<u32>, prev: u32, i: int)
    requires
        0 <= i <= s.len(),
        forall|j: int| 0 <= j < i ==> s[j] <= prev,
        i < s.len() ==> s[i] > prev,
    ensures
        first_above(s, prev) == i,
    decreases s.len(),
{
    if s.len() > 0 && i > 0 {
        let d = s.drop_first();
        assert(forall|j: int| 0 <= j < d.len() ==> d[j] == s[j + 1]);
        lemma_first_above_at(d, prev, i - 1);
    }
}

/// The ownership ledger: records in strictly increasing id order, and the
/// transaction counter that mints and transfers advance.
pub struct TokenState {
    pub tokens: Vec<OwnershipRecord>,
    pub counter: u32,
}

impl TokenState {
    /// The ledger's invariant: ids strictly increase with position and
    /// never pass the transaction counter.
    pub open spec fn wf(&self) -> bool {
        &&& ids_strictly_increasing(self.tokens@)
        &&& forall|i: int| 0 <= i < self.tokens@.len()
            ==> (#[trigger] self.tokens@[i]).token_id <= self.counter
    }

    /// A fresh ledger: no records, counter at zero.
    pub fn default() -> (r: TokenState)
        ensures
            r.wf(),
            r.tokens@.len() == 0,
            r.counter == 0,
    {
        TokenState { tokens: Vec::new(), counter: 0 }
    }

    /// Mint one unit for the given owner: advance the counter and append a
    /// record carrying the fresh id. Existing records are untouched.
    pub fn mint(&mut self, owner: &Identity, subaccount: Option<Vec<u8>>) -> (r: u32)
        requires
            old(self).wf(),
            old(self).counter < u32::MAX,
        ensures
            final(self).wf(),
            final(self).counter == old(self).counter + 1,
            r == final(self).counter,
            final(self).tokens@.len() == old(self).tokens@.len() + 1,
            forall|i: int| 0 <= i < old(self).tokens@.len()
                ==> final(self).tokens@[i] == old(self).tokens@[i],
            final(self).tokens@.last().token_id == old(self).counter + 1,
            final(self).tokens@.last().owner@ == owner@,
            sub_view(final(self).tokens@.last().subaccount) == sub_view(subaccount),
    {
        self.counter = self.counter + 1;
        let record = OwnershipRecord {
            token_id: self.counter,
            owner: owner.duplicate(),
            subaccount,
        };
        self.tokens.push(record);
        proof {
            let s1 = self.tokens@;
            assert forall|i: int, j: int| 0 <= i < j < s1.len()
                implies s1[i].token_id < s1[j].token_id by {
                if j == s1.len() - 1 {
                    assert(old(self).tokens@[i].token_id <= old(self).counter);
                } else {
                    assert(s1[i] == old(self).tokens@[i] && s1[j] == old(self).tokens@[j]);
                }
            }
        }
        self.counter
    }

    /// Re-own the record that carries the given id: replace its owner and
    /// sub-identifier, advance the counter, and return the counter's new
    /// value. Every other record is untouched.
    pub fn transfer(&mut self, token_id: u32, to_owner: &Identity, to_subaccount: Option<Vec<u8>>) -> (r: u32)
        requires
            old(self).wf(),
            old(self).counter < u32::MAX,
            spec_has_token(old(self).tokens@, token_id),
        ensures
            final(self).wf(),
            final(self).counter == old(self).counter + 1,
            r == final(self).counter,
            final(self).tokens@.len() == old(self).tokens@.len(),
            forall|i: int| 0 <= i < old(self).tokens@.len() && old(self).tokens@[i].token_id != token_id
                ==> final(self).tokens@[i] == old(self).tokens@[i],
            forall|i: int| 0 <= i < old(self).tokens@.len() && old(self).tokens@[i].token_id == token_id
                ==> (#[trigger] final(self).tokens@[i]).token_id == token_id
                    && final(self).tokens@[i].owner@ == to_owner@
                    && sub_view(final(self).tokens@[i].subaccount) == sub_view(to_subaccount),
    {
        let idx = match self.find_token(token_id) {
            Some(i) => i,
            None => {
                proof {
                    let w = choose|k: int| 0 <= k < self.tokens@.len()
                        && self.tokens@[k].token_id == token_id;
                    assert(false);
                }
                0
            },
        };
        let record = OwnershipRecord {
            token_id,
            owner: to_owner.duplicate(),
            subaccount: to_subaccount,
        };
        self.tokens.set(idx, record);
        self.counter = self.counter + 1;
        proof {
            assert forall|i: int| 0 <= i < old(self).tokens@.len()
                && old(self).tokens@[i].token_id == token_id
                implies i == idx by {
                if i != idx {
                    assert(old(self).tokens@[i].token_id < old(self).tokens@[idx as int].token_id
                        || old(self).tokens@[idx as int].token_id < old(self).tokens@[i].token_id);
                }
            }
        }
        self.counter
    }

    /// The position of the record carrying the given id, if any.
    pub fn find_token(&self, token_id: u32) -> (r: Option<usize>)
        ensures
            match r {
                Some(i) => i < self.tokens@.len() && self.tokens@[i as int].token_id == token_id,
                None => forall|i: int| 0 <= i < self.tokens@.len()
                    ==> self.tokens@[i].token_id != token_id,
            },
    {
        let n = self.tokens.len();
        let mut i: usize = 0;
        while i < n
            invariant
                i <= n,
                n == self.tokens@.len(),
                forall|j: int| 0 <= j < i ==> self.tokens@[j].token_id != token_id,
            decreases n - i,
        {
            if self.tokens[i].token_id == token_id {
                return Some(i);
            }
            i = i + 1;
        }
        None
    }

    /// All token ids, in increasing order.
    pub fn all_ids(&self) -> (r: Vec<u32>)
        ensures
            r@ == ids_of(self.tokens@),
    {
        let n = self.tokens.len();
        let mut out: Vec<u32> = Vec::new();
        let mut i: usize = 0;
        while i < n
            invariant
                i <= n,
                n == self.tokens@.len(),
                out@.len() == i,
                forall|j: int| 0 <= j < i ==> out@[j] == ids_of(self.tokens@)[j],
            decreases n - i,
        {
            out.push(self.tokens[i].token_id);
            i = i + 1;
        }
        proof {
            assert(out@ =~= ids_of(self.tokens@));
        }
        out
    }

    /// The ids the given account holds, in increasing order.
    pub fn ids_held_by(&self, owner: &Identity, sub: &Option<Vec<u8>>) -> (r: Vec<u32>)
        ensures
            r@ == matched_ids(self.tokens@, owner@, canon_sub(sub_view(*sub))),
    {
        let ghost key = canon_sub(sub_view(*sub));
        let n = self.tokens.len();
        let mut out: Vec<u32> = Vec::new();
        let mut i: usize = 0;
        while i < n
            invariant
                i <= n,
                n == self.tokens@.len(),
                key == canon_sub(sub_view(*sub)),
                out@ == matched_ids(self.tokens@.take(i as int), owner@, key),
            decreases n - i,
        {
            proof {
                assert(self.tokens@.take(i + 1).drop_last() =~= self.tokens@.take(i as int));
                assert(self.tokens@.take(i + 1).last() == self.tokens@[i as int]);
            }
            if record_matches(&self.tokens[i], owner, sub) {
                out.push(self.tokens[i].token_id);
                proof {
                    assert(out@ =~= matched_ids(self.tokens@.take(i + 1), owner@, key));
                }
            } else {
                proof {
                    assert(out@ =~= matched_ids(self.tokens@.take(i + 1), owner@, key));
                }
            }
            i = i + 1;
        }
        proof {
            assert(self.tokens@.take(n as int) =~= self.tokens@);
        }
        out
    }
}

/// Whether a record is held by the given account.
pub fn record_matches(r: &OwnershipRecord, owner: &Identity, sub: &Option<Vec<u8>>) -> (b: bool)
    ensures
        b == matches_account(*r, owner@, canon_sub(sub_view(*sub))),
{
    if !r.owner.same_as(owner) {
        return false;
    }
    subaccounts_eq(&r.subaccount, sub)
}

/// Whether two optional sub-identifiers denote the same sub-account, an
/// absent one standing for the canonical all-zero value.
pub fn subaccounts_eq(a: &Option<Vec<u8>>, b: &Option<Vec<u8>>) -> (r: bool)
    ensures
        r == (canon_sub(sub_view(*a)) == canon_sub(sub_view(*b))),
{
    let zeros: [u8; 32] = [0u8; 32];
    proof {
        assert(zeros@ =~= zero_sub());
    }
    match (a, b) {
        (Some(x), Some(y)) => {
            let r = x == y;
            proof {
                if x@ =~= y@ {
                    assert(canon_sub(sub_view(*a)) == canon_sub(sub_view(*b)));
                }
            }
            r
        },
        (Some(x), None) => eq_vec_array32(x, &zeros),
        (None, Some(y)) => eq_vec_array32(y, &zeros),
        (None, None) => true,
    }
}

/// Byte-exact equality of a vector against a 32-byte buffer.
fn eq_vec_array32(v: &Vec<u8>, a: &[u8; 32]) -> (r: bool)
    ensures
        r == (v@ == a@),
{
    if v.len() != 32 {
        proof {
            assert(v@.len() != a@.len());
        }
        return false;
    }
    let mut i: usize = 0;
    while i < 32
        invariant
            i <= 32,
            v@.len() == 32,
            forall|j: int| 0 <= j < i ==> v@[j] == a@[j],
        decreases 32 - i,
    {
        if v[i] != a[i] {
            return false;
        }
        i = i + 1;
    }
    proof {
        assert(v@ =~= a@);
    }
    true
}

/// A successful transfer moves the token id out of the previous holder's
/// derived index set and into the recipient's: among records that agree
/// everywhere but at the transferred position, the id is held exactly by
/// the new account.
pub proof fn lemma_transfer_moves_index(
    s0: Seq<OwnershipRecord>,
    s1: Seq<OwnershipRecord>,
    idx: int,
    id: u32,
    old_owner: Seq<u8>,
    old_sub: Seq<u8>,
    new_owner: Seq<u8>,
    new_sub: Seq<u8>,
)
    requires
        ids_strictly_increasing(s0),
        0 <= idx < s0.len(),
        s0[idx].token_id == id,
        matches_account(s0[idx], old_owner, old_sub),
        s1.len() == s0.len(),
        forall|i: int| 0 <= i < s0.len() && i != idx ==> s1[i] == s0[i],
        s1[idx].token_id == id,
        matches_account(s1[idx], new_owner, new_sub),
        !(old_owner == new_owner && old_sub == new_sub),
    ensures
        !owned_ids(s1, old_owner, old_sub).contains(id),
        owned_ids(s1, new_owner, new_sub).contains(id),
        owned_ids(s0, old_owner, old_sub).contains(id),
{
    assert(owned_ids(s0, old_owner, old_sub).contains(id));
    assert(owned_ids(s1, new_owner, new_sub).contains(id));
    if owned_ids(s1, old_owner, old_sub).contains(id) {
        let i = choose|i: int| 0 <= i < s1.len() && s1[i].token_id == id
            && matches_account(s1[i], old_owner, old_sub);
        if i == idx {
            assert(old_owner == new_owner && old_sub == new_sub);
        } else {
            assert(s1[i] == s0[i]);
            assert(s0[i].token_id == s0[idx].token_id);
            assert(s0[i].token_id < s0[idx].token_id || s0[idx].token_id < s0[i].token_id);
        }
        assert(false);
    }
}

/// The ids strictly above the cursor, in order, cut to the page size: the
/// page never reaches at or below the cursor and keeps the order it found.
pub fn paginate(ids: &Vec<u32>, prev: u32, take: usize) -> (r: Vec<u32>)
    requires
        sorted_strict(ids@),
    ensures
        r@ == spec_page(ids@, prev, take as int),
    {
    let n = ids.len();
    let mut i: usize = 0;
    while i < n && ids[i] <= prev
        invariant
            i <= n,
            n == ids@.len(),
            forall|j: int| 0 <= j < i ==> ids@[j] <= prev,
        decreases n - i,
    {
        i = i + 1;
    }
    proof {
        lemma_first_above_at(ids@, prev, i as int);
    }
    let ghost fa = i as int;
    let mut out: Vec<u32> = Vec::new();
    let mut j: usize = i;
    while j < n && j - i < take
        invariant
            i <= j <= n,
            n == ids@.len(),
            j - i <= take,
            out@ == ids@.subrange(fa, j as int),
            fa == i as int,
        decreases n - j,
    {
        out.push(ids[j]);
        proof {
            assert(out@ =~= ids@.subrange(fa, j + 1));
        }
        j = j + 1;
    }
    proof {
        assert(out@ =~= spec_page(ids@, prev, take as int));
    }
    out
}

} // verus!
