//! Read-only projections of wallet activity: per-transaction amount
//! classification, a total order on chain positions, the transaction list
//! ordering, and balance totals.

use vstd::prelude::*;
use vstd::multiset::Multiset;

verus! {

/// Where a transaction stands relative to the chain: either confirmed at
/// a block height (with the block's timestamp) or still unconfirmed (with
/// the time it was last seen in the mempool).
#[derive(Clone, Copy, PartialEq, Eq, Structural, Debug)]
pub enum ChainPos {
    Confirmed { height: u32, time: u64 },
    Unconfirmed { last_seen: u64 },
}

/// The total order on chain positions used to display the transaction
/// list: confirmed entries come first, ascending by (height, time);
/// unconfirmed entries come last, ascending by last-seen time.
pub open spec fn pos_le(a: ChainPos, b: ChainPos) -> bool {
    match (a, b) {
        (ChainPos::Confirmed { height: ha, time: ta }, ChainPos::Confirmed { height: hb, time: tb }) => {
            ha < hb || (ha == hb && ta <= tb)
        },
        (ChainPos::Confirmed { .. }, ChainPos::Unconfirmed { .. }) => true,
        (ChainPos::Unconfirmed { .. }, ChainPos::Confirmed { .. }) => false,
        (ChainPos::Unconfirmed { last_seen: la }, ChainPos::Unconfirmed { last_seen: lb }) => la <= lb,
    }
}

/// `pos_le` relates every pair of positions one way or the other.
pub proof fn lemma_pos_le_total(a: ChainPos, b: ChainPos)
    ensures
        pos_le(a, b) || pos_le(b, a),
{
}

/// Decides `pos_le` on two chain positions.
pub fn pos_le_exec(a: &ChainPos, b: &ChainPos) -> (r: bool)
    ensures
        r == pos_le(*a, *b),
{
    match (a, b) {
        (ChainPos::Confirmed { height: ha, time: ta }, ChainPos::Confirmed { height: hb, time: tb }) => {
            *ha < *hb || (*ha == *hb && *ta <= *tb)
        },
        (ChainPos::Confirmed { .. }, ChainPos::Unconfirmed { .. }) => true,
        (ChainPos::Unconfirmed { .. }, ChainPos::Confirmed { .. }) => false,
        (ChainPos::Unconfirmed { last_seen: la }, ChainPos::Unconfirmed { last_seen: lb }) => *la <= *lb,
    }
}

/// One row of the displayed transaction list.
#[derive(Clone, Copy, PartialEq, Eq, Structural, Debug)]
pub struct TxView {
    pub txid: u64,
    pub sent: u64,
    pub received: u64,
    pub fee: u64,
    pub fee_rate: u64,
    pub pos: ChainPos,
}

/// What a transaction shows as (sent, received): the net outflow when
/// more owned value goes in than comes back, else the net inflow.
pub open spec fn net_amounts(sent_total: u64, received_total: u64) -> (u64, u64) {
    if sent_total > received_total {
        ((sent_total - received_total) as u64, 0u64)
    } else {
        (0u64, (received_total - sent_total) as u64)
    }
}

/// Classifies a transaction as a net spend or a net receive.
///
/// `sent_total` is the summed value of the transaction's inputs that the
/// wallet owns, `received_total` the summed value of its outputs paying
/// the wallet. When more owned value goes in than comes back the
/// transaction is a net spend and the displayed sent amount is the net
/// outflow; a pure self-transfer thus shows the miner fee as sent.
/// Otherwise it is a net receive and the displayed received amount is the
/// net inflow; the fee never reduces a receive.
pub fn classify_amounts(sent_total: u64, received_total: u64) -> (r: (u64, u64))
    ensures
        r == net_amounts(sent_total, received_total),
        sent_total > received_total ==> r == ((sent_total - received_total) as u64, 0u64),
        sent_total <= received_total ==> r == (0u64, (received_total - sent_total) as u64),
{
    if sent_total > received_total {
        (sent_total - received_total, 0)
    } else {
        (0, received_total - sent_total)
    }
}

/// Builds the display row for one transaction from the wallet's view of
/// it: identifier, the classified sent/received amounts, fee, fee rate
/// and chain position.
pub fn tx_view_of(
    txid: u64,
    sent_total: u64,
    received_total: u64,
    fee: u64,
    fee_rate: u64,
    pos: ChainPos,
) -> (r: TxView)
    ensures
        r == (TxView {
            txid,
            sent: net_amounts(sent_total, received_total).0,
            received: net_amounts(sent_total, received_total).1,
            fee,
            fee_rate,
            pos,
        }),
{
    let (sent, received) = classify_amounts(sent_total, received_total);
    TxView { txid, sent, received, fee, fee_rate, pos }
}

/// Inserts `x` into `s` after every element that is no later than it,
/// keeping earlier elements in place: the insertion step of a stable
/// insertion sort.
pub open spec fn insert_ordered(x: TxView, s: Seq<TxView>) -> Seq<TxView>
    decreases s.len(),
{
    if s.len() == 0 {
        seq![x]
    } else if pos_le(s.last().pos, x.pos) {
        s.push(x)
    } else {
        insert_ordered(x, s.drop_last()).push(s.last())
    }
}

/// The displayed order of a transaction list: a stable insertion sort by
/// chain position.
pub open spec fn sort_by_pos_spec(s: Seq<TxView>) -> Seq<TxView>
    decreases s.len(),
{
    if s.len() == 0 {
        Seq::empty()
    } else {
        insert_ordered(s.last(), sort_by_pos_spec(s.drop_last()))
    }
}

/// A sequence ordered by chain position.
pub open spec fn sorted_by_pos(s: Seq<TxView>) -> bool {
    forall|i: int, j: int| 0 <= i <= j < s.len() ==> pos_le(#[trigger] s[i].pos, #[trigger] s[j].pos)
}

proof fn lemma_insert_ordered_len(x: TxView, s: Seq<TxView>)
    ensures
        insert_ordered(x, s).len() == s.len() + 1,
    decreases s.len(),
{
    if s.len() > 0 && !pos_le(s.last().pos, x.pos) {
        lemma_insert_ordered_len(x, s.drop_last());
    }
}

proof fn lemma_sort_by_pos_len(s: Seq<TxView>)
    ensures
        sort_by_pos_spec(s).len() == s.len(),
    decreases s.len(),
{
    if s.len() > 0 {
        lemma_sort_by_pos_len(s.drop_last());
        lemma_insert_ordered_len(s.last(), sort_by_pos_spec(s.drop_last()));
    }
}

/// Where the insertion point is known — everything from `j` on is later
/// than `x`, everything before is not — inserting is splicing at `j`.
proof fn lemma_insert_ordered_at(x: TxView, s: Seq<TxView>, j: int)
    requires
        0 <= j <= s.len(),
        forall|k: int| j <= k < s.len() ==> !pos_le(#[trigger] s[k].pos, x.pos),
        j > 0 ==> pos_le(s[j - 1].pos, x.pos),
    ensures
        insert_ordered(x, s) == s.take(j) + seq![x] + s.skip(j),
    decreases s.len(),
{
    if s.len() == 0 {
        assert(insert_ordered(x, s) =~= s.take(j) + seq![x] + s.skip(j));
    } else if pos_le(s.last().pos, x.pos) {
        assert(j == s.len());
        assert(s.take(j) == s);
        assert(insert_ordered(x, s) =~= s.take(j) + seq![x] + s.skip(j));
    } else {
        assert(j < s.len());
        lemma_insert_ordered_at(x, s.drop_last(), j);
        assert(s.drop_last().take(j) == s.take(j));
        assert(insert_ordered(x, s) =~= s.take(j) + seq![x] + s.skip(j));
    }
}

/// Every element of `insert_ordered(x, s)` is bounded by any bound on
/// both `x` and the elements of `s`.
proof fn lemma_insert_ordered_upper(x: TxView, s: Seq<TxView>, b: ChainPos)
    requires
        pos_le(x.pos, b),
        forall|i: int| 0 <= i < s.len() ==> pos_le(#[trigger] s[i].pos, b),
    ensures
        forall|i: int|
            0 <= i < insert_ordered(x, s).len() ==> pos_le(#[trigger] insert_ordered(x, s)[i].pos, b),
    decreases s.len(),
{
    if s.len() == 0 {
    } else if pos_le(s.last().pos, x.pos) {
    } else {
        lemma_insert_ordered_upper(x, s.drop_last(), b);
        lemma_insert_ordered_len(x, s.drop_last());
        let r = insert_ordered(x, s);
        let r0 = insert_ordered(x, s.drop_last());
        assert forall|i: int| 0 <= i < r.len() implies pos_le(#[trigger] r[i].pos, b) by {
            if i < r.len() - 1 {
                assert(r[i] == r0[i]);
            } else {
                assert(r[i] == s.last());
            }
        }
    }
}

/// Inserting into an ordered sequence keeps it ordered.
proof fn lemma_insert_ordered_sorted(x: TxView, s: Seq<TxView>)
    requires
        sorted_by_pos(s),
    ensures
        sorted_by_pos(insert_ordered(x, s)),
    decreases s.len(),
{
    if s.len() == 0 {
    } else if pos_le(s.last().pos, x.pos) {
        let r = s.push(x);
        assert forall|i: int, j: int| 0 <= i <= j < r.len() implies pos_le(
            #[trigger] r[i].pos,
            #[trigger] r[j].pos,
        ) by {
            if j < r.len() - 1 {
                assert(pos_le(s[i].pos, s[j].pos));
            } else if i < r.len() - 1 {
                assert(pos_le(s[i].pos, s.last().pos));
            }
        }
    } else {
        assert(sorted_by_pos(s.drop_last()));
        lemma_insert_ordered_sorted(x, s.drop_last());
        lemma_insert_ordered_len(x, s.drop_last());
        lemma_pos_le_total(s.last().pos, x.pos);
        assert forall|i: int| 0 <= i < s.drop_last().len() implies pos_le(
            #[trigger] s.drop_last()[i].pos,
            s.last().pos,
        ) by {
            assert(s[i] == s.drop_last()[i]);
        }
        lemma_insert_ordered_upper(x, s.drop_last(), s.last().pos);
        let r = insert_ordered(x, s);
        let r0 = insert_ordered(x, s.drop_last());
        assert forall|i: int, j: int| 0 <= i <= j < r.len() implies pos_le(
            #[trigger] r[i].pos,
            #[trigger] r[j].pos,
        ) by {
            if j < r.len() - 1 {
                assert(r[i] == r0[i] && r[j] == r0[j]);
                assert(pos_le(r0[i].pos, r0[j].pos));
            } else if i < r.len() - 1 {
                assert(r[i] == r0[i]);
                assert(pos_le(r0[i].pos, s.last().pos));
            }
        }
    }
}

proof fn lemma_insert_ordered_multiset(x: TxView, s: Seq<TxView>)
    ensures
        insert_ordered(x, s).to_multiset() == s.to_multiset().insert(x),
    decreases s.len(),
{
    broadcast use vstd::seq_lib::group_to_multiset_ensures;

    if s.len() == 0 {
        assert(insert_ordered(x, s) =~= Seq::empty().push(x));
        assert(s.to_multiset() =~= Multiset::empty());
        assert(Seq::empty().push(x).to_multiset() =~= Multiset::empty().insert(x));
    } else if pos_le(s.last().pos, x.pos) {
    } else {
        lemma_insert_ordered_multiset(x, s.drop_last());
        assert(s =~= s.drop_last().push(s.last()));
        assert(s.to_multiset() == s.drop_last().push(s.last()).to_multiset());
        assert(insert_ordered(x, s).to_multiset() == insert_ordered(
            x,
            s.drop_last(),
        ).to_multiset().insert(s.last()));
        assert(insert_ordered(x, s).to_multiset() =~= s.to_multiset().insert(x));
    }
}

/// Law: the displayed transaction order is total and stable. Sorting a
/// transaction list by chain position yields a list that is ordered —
/// confirmed entries ascending by height before unconfirmed ones — and
/// that holds exactly the transactions of the input; being a function of
/// the input alone, it renders identically on repeated calls.
pub proof fn lemma_sort_by_pos_ensures(s: Seq<TxView>)
    ensures
        sorted_by_pos(sort_by_pos_spec(s)),
        sort_by_pos_spec(s).to_multiset() == s.to_multiset(),
        sort_by_pos_spec(s).len() == s.len(),
    decreases s.len(),
{
    broadcast use vstd::seq_lib::group_to_multiset_ensures;

    lemma_sort_by_pos_len(s);
    if s.len() > 0 {
        lemma_sort_by_pos_ensures(s.drop_last());
        lemma_insert_ordered_sorted(s.last(), sort_by_pos_spec(s.drop_last()));
        lemma_insert_ordered_multiset(s.last(), sort_by_pos_spec(s.drop_last()));
        assert(s =~= s.drop_last().push(s.last()));
        assert(s.to_multiset() == s.drop_last().push(s.last()).to_multiset());
        assert(sort_by_pos_spec(s).to_multiset() =~= s.to_multiset());
    }
}

/// Sorts the transaction list for display, by chain position, stably:
/// the result is exactly the stable insertion sort of the input.
pub fn sort_by_position(v: &mut Vec<TxView>)
    ensures
        final(v)@ == sort_by_pos_spec(old(v)@),
{
    let ghost orig = v@;
    let ghost n = orig.len() as int;
    if v.len() == 0 {
        return ;
    }
    proof {
        let one = orig.subrange(0, 1);
        assert(one.drop_last() =~= Seq::<TxView>::empty());
        assert(sort_by_pos_spec(Seq::<TxView>::empty()) == Seq::<TxView>::empty());
        assert(one.last() == orig[0]);
        assert(sort_by_pos_spec(one) == insert_ordered(orig[0], Seq::<TxView>::empty()));
        assert(insert_ordered(orig[0], Seq::<TxView>::empty()) == seq![orig[0]]);
        assert(v@.subrange(0, 1) =~= seq![orig[0]]);
    }
    let mut i: usize = 1;
    while i < v.len()
        invariant
            1 <= i <= n,
            v@.len() == n,
            n == orig.len(),
            v@.subrange(0, i as int) == sort_by_pos_spec(orig.subrange(0, i as int)),
            v@.subrange(i as int, n) == orig.subrange(i as int, n),
        decreases n - i,
    {
        let ghost sp = sort_by_pos_spec(orig.subrange(0, i as int));
        let ghost x = orig[i as int];
        proof {
            lemma_sort_by_pos_len(orig.subrange(0, i as int));
            assert(v@.subrange(i as int, n)[0] == orig.subrange(i as int, n)[0]);
            assert(v@[i as int] == x);
            assert forall|k: int| i as int + 1 <= k < n implies v@[k] == orig[k] by {
                assert(v@.subrange(i as int, n)[k - i as int] == orig.subrange(i as int, n)[k - i
                    as int]);
            }
            assert(v@.subrange(i as int + 1, n) =~= orig.subrange(i as int + 1, n));
            assert(v@.subrange(0, i as int) == sp.subrange(0, i as int)) by {
                assert(sp.subrange(0, i as int) =~= sp);
            }
        }
        let mut j: usize = i;
        while j > 0 && !pos_le_exec(&v[j - 1].pos, &v[j].pos)
            invariant
                0 <= j <= i < n,
                v@.len() == n,
                n == orig.len(),
                sp == sort_by_pos_spec(orig.subrange(0, i as int)),
                sp.len() == i,
                x == orig[i as int],
                v@.subrange(0, j as int) == sp.subrange(0, j as int),
                v@[j as int] == x,
                v@.subrange(j as int + 1, i as int + 1) == sp.subrange(j as int, i as int),
                v@.subrange(i as int + 1, n) == orig.subrange(i as int + 1, n),
                forall|k: int| j <= k < i ==> !pos_le(#[trigger] sp[k].pos, x.pos),
            decreases j,
        {
            let ghost ji = j as int;
            let ghost ii = i as int;
            proof {
                assert(v@.subrange(0, ji)[ji - 1] == sp.subrange(0, ji)[ji - 1]);
                assert(v@[ji - 1] == sp[ji - 1]);
            }
            let prev = v[j - 1];
            let cur = v[j];
            let ghost vpre = v@;
            v.set(j, prev);
            v.set(j - 1, cur);
            proof {
                assert forall|k: int| 0 <= k < ji - 1 implies v@[k] == sp[k] by {
                    assert(vpre.subrange(0, ji)[k] == sp.subrange(0, ji)[k]);
                }
                assert(v@.subrange(0, ji - 1) =~= sp.subrange(0, ji - 1));
                assert(v@[ji - 1] == x);
                assert(v@[ji] == sp[ji - 1]);
                assert forall|k: int| ji + 1 <= k < ii + 1 implies v@[k] == sp[k - 1] by {
                    assert(vpre.subrange(ji + 1, ii + 1)[k - ji - 1] == sp.subrange(ji, ii)[k - ji
                        - 1]);
                }
                assert(v@.subrange(ji, ii + 1) =~= sp.subrange(ji - 1, ii));
                assert forall|k: int| ii + 1 <= k < n implies v@[k] == orig[k] by {
                    assert(vpre.subrange(ii + 1, n)[k - ii - 1] == orig.subrange(ii + 1, n)[k - ii
                        - 1]);
                }
                assert(v@.subrange(ii + 1, n) =~= orig.subrange(ii + 1, n));
            }
            j = j - 1;
        }
        proof {
            let ji = j as int;
            let ii = i as int;
            if j > 0 {
                assert(v@.subrange(0, ji)[ji - 1] == sp.subrange(0, ji)[ji - 1]);
                assert(v@[ji - 1] == sp[ji - 1]);
                assert(pos_le(sp[ji - 1].pos, x.pos));
            }
            lemma_insert_ordered_at(x, sp, ji);
            assert forall|k: int| 0 <= k < ji implies v@[k] == sp[k] by {
                assert(v@.subrange(0, ji)[k] == sp.subrange(0, ji)[k]);
            }
            assert forall|k: int| ji + 1 <= k < ii + 1 implies v@[k] == sp[k - 1] by {
                assert(v@.subrange(ji + 1, ii + 1)[k - ji - 1] == sp.subrange(ji, ii)[k - ji - 1]);
            }
            assert(v@.subrange(0, ii + 1) =~= sp.take(ji) + seq![x] + sp.skip(ji));
            assert(v@.subrange(0, ii + 1) == insert_ordered(x, sp));
            assert(orig.subrange(0, ii + 1).drop_last() =~= orig.subrange(0, ii));
            assert(orig.subrange(0, ii + 1).last() == x);
            assert(sort_by_pos_spec(orig.subrange(0, ii + 1)) == insert_ordered(x, sp));
            assert forall|k: int| ii + 1 <= k < n implies v@[k] == orig[k] by {
                assert(v@.subrange(ii + 1, n)[k - ii - 1] == orig.subrange(ii + 1, n)[k - ii - 1]);
            }
            assert(v@.subrange(ii + 1, n) =~= orig.subrange(ii + 1, n));
        }
        i = i + 1;
    }
    proof {
        assert(orig.subrange(0, n) =~= orig);
        assert(v@.subrange(0, n) =~= v@);
    }
}

/// A spendable output as the balance computation sees it: its value in
/// satoshis and whether the transaction that created it is confirmed.
#[derive(Clone, Copy, PartialEq, Eq, Structural, Debug)]
pub struct Utxo {
    pub value: u64,
    pub confirmed: bool,
}

/// The wallet's balance, split by confirmation status.
#[derive(Clone, Copy, PartialEq, Eq, Structural, Debug)]
pub struct Balance {
    pub confirmed: u64,
    pub unconfirmed: u64,
}

/// The summed value of the confirmed outputs in `s`.
pub open spec fn sum_confirmed(s: Seq<Utxo>) -> nat
    decreases s.len(),
{
    if s.len() == 0 {
        0
    } else {
        sum_confirmed(s.drop_last()) + if s.last().confirmed {
            s.last().value as nat
        } else {
            0
        }
    }
}

/// The summed value of the unconfirmed outputs in `s`.
pub open spec fn sum_unconfirmed(s: Seq<Utxo>) -> nat
    decreases s.len(),
{
    if s.len() == 0 {
        0
    } else {
        sum_unconfirmed(s.drop_last()) + if s.last().confirmed {
            0
        } else {
            s.last().value as nat
        }
    }
}

proof fn lemma_sums_prefix(s: Seq<Utxo>, k: int)
    requires
        0 <= k <= s.len(),
    ensures
        sum_confirmed(s.take(k)) <= sum_confirmed(s),
        sum_unconfirmed(s.take(k)) <= sum_unconfirmed(s),
    decreases s.len(),
{
    if k < s.len() {
        assert(s.drop_last().take(k) == s.take(k));
        lemma_sums_prefix(s.drop_last(), k);
    } else {
        assert(s.take(k) == s);
    }
}

/// Totals the spendable outputs, split into confirmed and unconfirmed
/// sums. Returns `None` exactly when one of the two sums does not fit in
/// 64 bits.
pub fn balance_of(utxos: &Vec<Utxo>) -> (r: Option<Balance>)
    ensures
        match r {
            Some(b) => b.confirmed == sum_confirmed(utxos@) && b.unconfirmed == sum_unconfirmed(
                utxos@,
            ),
            None => sum_confirmed(utxos@) > u64::MAX || sum_unconfirmed(utxos@) > u64::MAX,
        },
{
    let mut confirmed: u64 = 0;
    let mut unconfirmed: u64 = 0;
    let mut i: usize = 0;
    while i < utxos.len()
        invariant
            0 <= i <= utxos@.len(),
            confirmed == sum_confirmed(utxos@.take(i as int)),
            unconfirmed == sum_unconfirmed(utxos@.take(i as int)),
        decreases utxos@.len() - i,
    {
        let u = utxos[i];
        proof {
            assert(utxos@.take(i as int + 1).drop_last() == utxos@.take(i as int));
            assert(utxos@.take(i as int + 1).last() == u);
        }
        if u.confirmed {
            if confirmed > u64::MAX - u.value {
                proof {
                    lemma_sums_prefix(utxos@, i as int + 1);
                }
                return None;
            }
            confirmed = confirmed + u.value;
        } else {
            if unconfirmed > u64::MAX - u.value {
                proof {
                    lemma_sums_prefix(utxos@, i as int + 1);
                }
                return None;
            }
            unconfirmed = unconfirmed + u.value;
        }
        i = i + 1;
    }
    proof {
        assert(utxos@.take(utxos@.len() as int) == utxos@);
    }
    Some(Balance { confirmed, unconfirmed })
}

impl Balance {
    /// The spendable total: confirmed plus unconfirmed, wide enough that
    /// the addition cannot overflow.
    pub fn total(&self) -> (r: u128)
        ensures
            r == self.confirmed + self.unconfirmed,
    {
        (self.confirmed as u128) + (self.unconfirmed as u128)
    }
}

} // verus!
