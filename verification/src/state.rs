//! The persisted wallet state and how a chain update is reconciled into
//! it: transactions merge by identifier (re-applying an update changes
//! nothing), observed address activity accumulates, and the change
//! keychain index only ever moves forward.

use vstd::prelude::*;
use crate::view::ChainPos;

verus! {

/// One observed wallet transaction: its identifier and where it stands
/// relative to the chain.
#[derive(Clone, Copy, PartialEq, Eq, Structural, Debug)]
pub struct TxEntry {
    pub txid: u64,
    pub pos: ChainPos,
}

/// The mathematical model of the wallet state.
#[verifier::ext_equal]
pub ghost struct WalletModel {
    /// For each revealed receive-chain index, whether activity has been
    /// observed on that address.
    pub external_used: Seq<bool>,
    /// The next unused change-chain derivation index.
    pub internal_next: u64,
    /// The observed transactions, unique by identifier.
    pub txs: Seq<TxEntry>,
}

/// The mathematical model of a chain update.
#[verifier::ext_equal]
pub ghost struct UpdateModel {
    /// Activity observed per receive-chain index.
    pub external_used: Seq<bool>,
    /// Transactions the chain source reports, unique by identifier.
    pub txs: Seq<TxEntry>,
}

/// The in-memory wallet state: revealed receive addresses with their
/// observed activity, the next change index, and the transaction set.
pub struct WalletState {
    pub external_used: Vec<bool>,
    pub internal_next: u64,
    pub txs: Vec<TxEntry>,
}

impl View for WalletState {
    type V = WalletModel;

    open spec fn view(&self) -> WalletModel {
        WalletModel {
            external_used: self.external_used@,
            internal_next: self.internal_next,
            txs: self.txs@,
        }
    }
}

/// What one reconciliation round brings back from the chain source.
pub struct ChainUpdate {
    pub external_used: Vec<bool>,
    pub txs: Vec<TxEntry>,
}

impl View for ChainUpdate {
    type V = UpdateModel;

    open spec fn view(&self) -> UpdateModel {
        UpdateModel { external_used: self.external_used@, txs: self.txs@ }
    }
}

/// No two entries carry the same transaction identifier.
pub open spec fn unique_txids(s: Seq<TxEntry>) -> bool {
    forall|i: int, j: int|
        0 <= i < j < s.len() ==> (#[trigger] s[i]).txid != (#[trigger] s[j]).txid
}

impl WalletState {
    /// The state's invariant: observed transactions are deduplicated by
    /// identifier.
    pub open spec fn wf(&self) -> bool {
        unique_txids(self@.txs)
    }
}

impl ChainUpdate {
    /// A well-formed update reports each transaction once.
    pub open spec fn wf(&self) -> bool {
        unique_txids(self@.txs)
    }
}

/// Whether `s` holds an entry with identifier `id`.
pub open spec fn has_txid(s: Seq<TxEntry>, id: u64) -> bool {
    exists|k: int| 0 <= k < s.len() && #[trigger] s[k].txid == id
}

/// The first entry of `s` with identifier `id`.
pub open spec fn entry_for(s: Seq<TxEntry>, id: u64) -> TxEntry
    decreases s.len(),
{
    if s.len() == 0 {
        arbitrary()
    } else if s[0].txid == id {
        s[0]
    } else {
        entry_for(s.drop_first(), id)
    }
}

/// Each known transaction, refreshed by the update's entry for it where
/// the update has one.
pub open spec fn replace_known(s: Seq<TxEntry>, u: Seq<TxEntry>) -> Seq<TxEntry> {
    Seq::new(
        s.len(),
        |i: int|
            if has_txid(u, s[i].txid) {
                entry_for(u, s[i].txid)
            } else {
                s[i]
            },
    )
}

/// The update's entries whose identifiers are new to `s`, in update
/// order.
pub open spec fn fresh_entries(s: Seq<TxEntry>, u: Seq<TxEntry>) -> Seq<TxEntry>
    decreases u.len(),
{
    if u.len() == 0 {
        Seq::empty()
    } else if has_txid(s, u.last().txid) {
        fresh_entries(s, u.drop_last())
    } else {
        fresh_entries(s, u.drop_last()).push(u.last())
    }
}

/// Merging transaction sets: known identifiers are refreshed in place,
/// new ones are appended in update order.
pub open spec fn merge_txs(s: Seq<TxEntry>, u: Seq<TxEntry>) -> Seq<TxEntry> {
    replace_known(s, u) + fresh_entries(s, u)
}

/// Accumulated address activity: an index counts as used if either side
/// has seen it used.
pub open spec fn merge_marks(a: Seq<bool>, b: Seq<bool>) -> Seq<bool> {
    Seq::new(
        if a.len() >= b.len() {
            a.len()
        } else {
            b.len()
        },
        |i: int| (i < a.len() && a[i]) || (i < b.len() && b[i]),
    )
}

/// What applying a chain update does to the wallet state.
pub open spec fn apply_model(m: WalletModel, u: UpdateModel) -> WalletModel {
    WalletModel {
        external_used: merge_marks(m.external_used, u.external_used),
        internal_next: m.internal_next,
        txs: merge_txs(m.txs, u.txs),
    }
}

proof fn lemma_entry_for_props(s: Seq<TxEntry>, id: u64)
    requires
        has_txid(s, id),
    ensures
        entry_for(s, id).txid == id,
        exists|k: int| 0 <= k < s.len() && s[k] == entry_for(s, id),
    decreases s.len(),
{
    if s[0].txid == id {
    } else {
        let k = choose|k: int| 0 <= k < s.len() && #[trigger] s[k].txid == id;
        assert(s.drop_first()[k - 1].txid == id);
        lemma_entry_for_props(s.drop_first(), id);
        let k2 = choose|k2: int|
            0 <= k2 < s.drop_first().len() && s.drop_first()[k2] == entry_for(s.drop_first(), id);
        assert(s[k2 + 1] == entry_for(s, id));
    }
}

/// Scanning forward, the first matching index yields `entry_for`.
proof fn lemma_entry_for_first(s: Seq<TxEntry>, id: u64, i: int)
    requires
        0 <= i < s.len(),
        s[i].txid == id,
        forall|k: int| 0 <= k < i ==> #[trigger] s[k].txid != id,
    ensures
        has_txid(s, id),
        entry_for(s, id) == s[i],
    decreases i,
{
    if i == 0 {
    } else {
        assert(s[0].txid != id);
        assert(s.drop_first()[i - 1].txid == id);
        assert forall|k: int| 0 <= k < i - 1 implies #[trigger] s.drop_first()[k].txid != id by {
            assert(s[k + 1].txid != id);
        }
        lemma_entry_for_first(s.drop_first(), id, i - 1);
    }
}

/// In a deduplicated sequence, `entry_for` recovers each member from its
/// identifier.
proof fn lemma_entry_for_member(s: Seq<TxEntry>, e: TxEntry, k: int)
    requires
        unique_txids(s),
        0 <= k < s.len(),
        s[k] == e,
    ensures
        entry_for(s, e.txid) == e,
{
    assert(has_txid(s, e.txid));
    lemma_entry_for_props(s, e.txid);
    let k2 = choose|k2: int| 0 <= k2 < s.len() && s[k2] == entry_for(s, e.txid);
    if k2 != k {
        assert(s[k2].txid == s[k].txid);
        assert(false);
    }
}

/// Every fresh entry comes from the update and is new to the state.
proof fn lemma_fresh_elems(s: Seq<TxEntry>, u: Seq<TxEntry>)
    ensures
        forall|l: int|
            0 <= l < fresh_entries(s, u).len() ==> !has_txid(
                s,
                (#[trigger] fresh_entries(s, u)[l]).txid,
            ) && exists|k: int| 0 <= k < u.len() && u[k] == fresh_entries(s, u)[l],
    decreases u.len(),
{
    if u.len() > 0 {
        lemma_fresh_elems(s, u.drop_last());
        let f = fresh_entries(s, u);
        let f0 = fresh_entries(s, u.drop_last());
        assert forall|l: int| 0 <= l < f.len() implies !has_txid(s, (#[trigger] f[l]).txid)
            && exists|k: int| 0 <= k < u.len() && u[k] == f[l] by {
            if l < f0.len() {
                assert(f[l] == f0[l]);
                let k = choose|k: int| 0 <= k < u.drop_last().len() && u.drop_last()[k] == f0[l];
                assert(u[k] == f[l]);
            } else {
                assert(f[l] == u.last());
                assert(u[u.len() - 1] == f[l]);
            }
        }
    }
}

/// An update identifier that the state lacks appears among the fresh
/// entries.
proof fn lemma_fresh_has(s: Seq<TxEntry>, u: Seq<TxEntry>, id: u64)
    requires
        has_txid(u, id),
        !has_txid(s, id),
    ensures
        has_txid(fresh_entries(s, u), id),
    decreases u.len(),
{
    let k = choose|k: int| 0 <= k < u.len() && #[trigger] u[k].txid == id;
    let f = fresh_entries(s, u);
    if k == u.len() - 1 {
        let f0 = fresh_entries(s, u.drop_last());
        assert(f[f.len() - 1] == u.last());
        assert(f[f.len() - 1].txid == id);
    } else {
        assert(u.drop_last()[k].txid == id);
        lemma_fresh_has(s, u.drop_last(), id);
        let f0 = fresh_entries(s, u.drop_last());
        let l = choose|l: int| 0 <= l < f0.len() && #[trigger] f0[l].txid == id;
        if has_txid(s, u.last().txid) {
        } else {
            assert(f[l] == f0[l]);
            assert(f[l].txid == id);
        }
    }
}

/// If the state already holds every update identifier, nothing is fresh.
proof fn lemma_fresh_empty(s: Seq<TxEntry>, u: Seq<TxEntry>)
    requires
        forall|k: int| 0 <= k < u.len() ==> has_txid(s, (#[trigger] u[k]).txid),
    ensures
        fresh_entries(s, u).len() == 0,
    decreases u.len(),
{
    if u.len() > 0 {
        assert(has_txid(s, u[u.len() - 1].txid));
        lemma_fresh_empty(s, u.drop_last());
    }
}

/// Fresh entries of a deduplicated update are themselves deduplicated.
proof fn lemma_fresh_unique(s: Seq<TxEntry>, u: Seq<TxEntry>)
    requires
        unique_txids(u),
    ensures
        unique_txids(fresh_entries(s, u)),
    decreases u.len(),
{
    if u.len() > 0 {
        lemma_fresh_unique(s, u.drop_last());
        lemma_fresh_elems(s, u.drop_last());
        let f = fresh_entries(s, u);
        let f0 = fresh_entries(s, u.drop_last());
        if !has_txid(s, u.last().txid) {
            assert forall|i: int, j: int| 0 <= i < j < f.len() implies (#[trigger] f[i]).txid != (
            #[trigger] f[j]).txid by {
                if j < f.len() - 1 {
                    assert(f0[i].txid != f0[j].txid);
                } else {
                    assert(f[i] == f0[i]);
                    let k = choose|k: int| 0 <= k < u.drop_last().len() && u.drop_last()[k] == f0[i];
                    assert(u[k] == f0[i]);
                    assert(u[k].txid != u[u.len() - 1].txid);
                    assert(f[j] == u.last());
                }
            }
        }
    }
}

/// Merging preserves deduplication of the transaction set.
pub proof fn lemma_merge_preserves_unique(s: Seq<TxEntry>, u: Seq<TxEntry>)
    requires
        unique_txids(s),
        unique_txids(u),
    ensures
        unique_txids(merge_txs(s, u)),
{
    let m = merge_txs(s, u);
    let r = replace_known(s, u);
    let f = fresh_entries(s, u);
    lemma_fresh_unique(s, u);
    lemma_fresh_elems(s, u);
    assert forall|i: int| 0 <= i < s.len() implies (#[trigger] r[i]).txid == s[i].txid by {
        if has_txid(u, s[i].txid) {
            lemma_entry_for_props(u, s[i].txid);
        }
    }
    assert forall|i: int, j: int| 0 <= i < j < m.len() implies (#[trigger] m[i]).txid != (
    #[trigger] m[j]).txid by {
        if j < s.len() {
            assert(m[i] == r[i] && m[j] == r[j]);
            assert(s[i].txid != s[j].txid);
        } else if i < s.len() {
            assert(m[i] == r[i] && m[j] == f[j - s.len()]);
            assert(!has_txid(s, f[j - s.len()].txid));
            assert(s[i].txid == m[i].txid);
            if m[i].txid == m[j].txid {
                assert(has_txid(s, m[j].txid));
            }
        } else {
            assert(m[i] == f[i - s.len()] && m[j] == f[j - s.len()]);
        }
    }
}

/// Law: applying the same chain update twice leaves the state exactly as
/// applying it once did — reconciliation is idempotent.
pub proof fn lemma_apply_idempotent(m: WalletModel, u: UpdateModel)
    requires
        unique_txids(u.txs),
    ensures
        apply_model(apply_model(m, u), u) == apply_model(m, u),
{
    let m1 = apply_model(m, u);
    // address activity: a boolean or stabilizes after one round
    assert(merge_marks(merge_marks(m.external_used, u.external_used), u.external_used)
        =~= merge_marks(m.external_used, u.external_used));
    // transactions
    let s = m.txs;
    let ut = u.txs;
    let mm = merge_txs(s, ut);
    let r = replace_known(s, ut);
    let f = fresh_entries(s, ut);
    lemma_fresh_elems(s, ut);
    // every update identifier is present after the first application
    assert forall|k: int| 0 <= k < ut.len() implies has_txid(mm, (#[trigger] ut[k]).txid) by {
        let id = ut[k].txid;
        if has_txid(s, id) {
            let k0 = choose|k0: int| 0 <= k0 < s.len() && #[trigger] s[k0].txid == id;
            lemma_entry_for_props(ut, id);
            assert(mm[k0] == r[k0]);
            assert(r[k0].txid == id);
        } else {
            lemma_fresh_has(s, ut, id);
            let l = choose|l: int| 0 <= l < f.len() && #[trigger] f[l].txid == id;
            assert(mm[s.len() + l] == f[l]);
        }
    }
    lemma_fresh_empty(mm, ut);
    // refreshing a second time changes no entry
    assert forall|i: int| 0 <= i < mm.len() implies replace_known(mm, ut)[i] == mm[i] by {
        if i < s.len() {
            assert(mm[i] == r[i]);
            if has_txid(ut, s[i].txid) {
                lemma_entry_for_props(ut, s[i].txid);
                assert(mm[i] == entry_for(ut, s[i].txid));
                assert(mm[i].txid == s[i].txid);
            } else {
                assert(mm[i] == s[i]);
            }
        } else {
            let l = i - s.len();
            assert(mm[i] == f[l]);
            let k = choose|k: int| 0 <= k < ut.len() && ut[k] == f[l];
            lemma_entry_for_member(ut, f[l], k);
            assert(has_txid(ut, mm[i].txid));
        }
    }
    assert(merge_txs(mm, ut) =~= mm);
    assert(apply_model(m1, u) =~= m1);
}

/// Finds the first entry with the given identifier.
fn find_by_txid(v: &Vec<TxEntry>, id: u64) -> (r: Option<TxEntry>)
    ensures
        r is Some <==> has_txid(v@, id),
        r is Some ==> r->0 == entry_for(v@, id),
{
    let mut i: usize = 0;
    while i < v.len()
        invariant
            0 <= i <= v@.len(),
            forall|k: int| 0 <= k < i ==> #[trigger] v@[k].txid != id,
        decreases v@.len() - i,
    {
        if v[i].txid == id {
            proof {
                lemma_entry_for_first(v@, id, i as int);
            }
            return Some(v[i]);
        }
        i = i + 1;
    }
    None
}

/// Whether the list holds an entry with the given identifier.
fn contains_txid(v: &Vec<TxEntry>, id: u64) -> (r: bool)
    ensures
        r == has_txid(v@, id),
{
    let mut i: usize = 0;
    while i < v.len()
        invariant
            0 <= i <= v@.len(),
            forall|k: int| 0 <= k < i ==> #[trigger] v@[k].txid != id,
        decreases v@.len() - i,
    {
        if v[i].txid == id {
            return true;
        }
        i = i + 1;
    }
    false
}

impl WalletState {
    /// A wallet that has never seen the chain: no revealed addresses, no
    /// transactions, change index at zero.
    pub fn new() -> (r: WalletState)
        ensures
            r@ == (WalletModel {
                external_used: Seq::empty(),
                internal_next: 0u64,
                txs: Seq::empty(),
            }),
            r.wf(),
    {
        let r = WalletState { external_used: Vec::new(), internal_next: 0, txs: Vec::new() };
        proof {
            assert(r@ =~= WalletModel {
                external_used: Seq::empty(),
                internal_next: 0u64,
                txs: Seq::empty(),
            });
        }
        r
    }

    /// Reconciles one chain update into the wallet state: known
    /// transactions are refreshed (confirmations land here), new ones are
    /// appended, and observed address activity accumulates. Re-applying
    /// the same update is a no-op (`lemma_apply_idempotent`), so a repeated
    /// sync cannot duplicate history.
    pub fn apply_update(&mut self, update: &ChainUpdate)
        ensures
            final(self)@ == apply_model(old(self)@, update@),
            old(self).wf() && update.wf() ==> final(self).wf(),
    {
        let ghost s = self.txs@;
        let ghost ut = update.txs@;
        let ghost a = self.external_used@;
        let ghost b = update.external_used@;

        // refresh known transactions
        let mut merged: Vec<TxEntry> = Vec::new();
        let mut i: usize = 0;
        while i < self.txs.len()
            invariant
                0 <= i <= s.len(),
                self.txs@ == s,
                update.txs@ == ut,
                merged@ == replace_known(s, ut).take(i as int),
            decreases s.len() - i,
        {
            let ghost pre = merged@;
            match find_by_txid(&update.txs, self.txs[i].txid) {
                Some(e) => {
                    merged.push(e);
                },
                None => {
                    let e = self.txs[i];
                    merged.push(e);
                },
            }
            proof {
                assert(replace_known(s, ut).take(i as int + 1) =~= replace_known(s, ut).take(
                    i as int,
                ).push(replace_known(s, ut)[i as int]));
                assert(merged@ == replace_known(s, ut).take(i as int + 1));
            }
            i = i + 1;
        }
        proof {
            assert(replace_known(s, ut).take(s.len() as int) =~= replace_known(s, ut));
        }

        // append transactions the state has not seen
        let mut k: usize = 0;
        while k < update.txs.len()
            invariant
                0 <= k <= ut.len(),
                self.txs@ == s,
                update.txs@ == ut,
                merged@ == replace_known(s, ut) + fresh_entries(s, ut.take(k as int)),
            decreases ut.len() - k,
        {
            proof {
                assert(ut.take(k as int + 1).drop_last() =~= ut.take(k as int));
                assert(ut.take(k as int + 1).last() == ut[k as int]);
            }
            if !contains_txid(&self.txs, update.txs[k].txid) {
                let e = update.txs[k];
                merged.push(e);
                proof {
                    assert(merged@ =~= replace_known(s, ut) + fresh_entries(s, ut.take(
                        k as int + 1,
                    )));
                }
            } else {
                proof {
                    assert(merged@ =~= replace_known(s, ut) + fresh_entries(s, ut.take(
                        k as int + 1,
                    )));
                }
            }
            k = k + 1;
        }
        proof {
            assert(ut.take(ut.len() as int) =~= ut);
            assert(merged@ == merge_txs(s, ut));
        }

        // accumulate observed address activity
        let alen = self.external_used.len();
        let blen = update.external_used.len();
        let maxlen = if alen >= blen {
            alen
        } else {
            blen
        };
        let mut marks: Vec<bool> = Vec::new();
        let mut j: usize = 0;
        while j < maxlen
            invariant
                0 <= j <= maxlen,
                self.external_used@ == a,
                update.external_used@ == b,
                alen == a.len(),
                blen == b.len(),
                maxlen == merge_marks(a, b).len(),
                marks@ == merge_marks(a, b).take(j as int),
            decreases maxlen - j,
        {
            let av = if j < alen {
                self.external_used[j]
            } else {
                false
            };
            let bv = if j < blen {
                update.external_used[j]
            } else {
                false
            };
            marks.push(av || bv);
            proof {
                assert(merge_marks(a, b).take(j as int + 1) =~= merge_marks(a, b).take(
                    j as int,
                ).push(merge_marks(a, b)[j as int]));
            }
            j = j + 1;
        }
        proof {
            assert(merge_marks(a, b).take(merge_marks(a, b).len() as int) =~= merge_marks(a, b));
        }

        self.txs = merged;
        self.external_used = marks;
        proof {
            assert(final(self)@ =~= apply_model(old(self)@, update@));
            if old(self).wf() && update.wf() {
                lemma_merge_preserves_unique(s, ut);
            }
        }
    }

    /// The lowest receive-chain index with no observed activity; reveals
    /// a new address (extending the chain by one unused slot) when every
    /// revealed one has been used. The wallet's transactions and change
    /// index are untouched.
    pub fn next_unused_external(&mut self) -> (idx: usize)
        ensures
            idx <= old(self)@.external_used.len(),
            forall|k: int| 0 <= k < idx ==> old(self)@.external_used[k] == true,
            idx < old(self)@.external_used.len() ==> old(self)@.external_used[idx as int] == false
                && final(self)@ == old(self)@,
            idx == old(self)@.external_used.len() ==> final(self)@ == (WalletModel {
                external_used: old(self)@.external_used.push(false),
                ..old(self)@
            }),
    {
        let mut i: usize = 0;
        while i < self.external_used.len()
            invariant
                0 <= i <= self.external_used@.len(),
                self == old(self),
                forall|k: int| 0 <= k < i ==> old(self)@.external_used[k] == true,
            decreases self.external_used@.len() - i,
        {
            if !self.external_used[i] {
                return i;
            }
            i = i + 1;
        }
        self.external_used.push(false);
        i
    }
}

} // verus!
