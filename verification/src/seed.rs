//! Key bootstrap: obtaining the wallet's mnemonic phrase exactly once.
//!
//! The seed store maps wallet names to mnemonic phrases. `ensure_seed`
//! returns the stored phrase when one exists and otherwise derives a
//! fresh phrase from entropy and records it, so a wallet name is bound to
//! one phrase for the life of the store.

use vstd::prelude::*;

verus! {

/// One stored seed record: a wallet name bound to its mnemonic phrase.
pub struct SeedRow {
    pub name: String,
    pub phrase: String,
}

/// The durable seed table, modelled as its list of (name, phrase) rows.
pub struct SeedStore {
    pub rows: Vec<SeedRow>,
}

impl View for SeedStore {
    type V = Seq<(Seq<char>, Seq<char>)>;

    open spec fn view(&self) -> Seq<(Seq<char>, Seq<char>)> {
        Seq::new(self.rows@.len(), |i: int| (self.rows@[i].name@, self.rows@[i].phrase@))
    }
}

/// Whether a row for `name` exists.
pub open spec fn has_name(rows: Seq<(Seq<char>, Seq<char>)>, name: Seq<char>) -> bool {
    exists|k: int| 0 <= k < rows.len() && (#[trigger] rows[k]).0 == name
}

/// The phrase of the first row for `name`.
pub open spec fn phrase_for(rows: Seq<(Seq<char>, Seq<char>)>, name: Seq<char>) -> Seq<char>
    decreases rows.len(),
{
    if rows.len() == 0 {
        arbitrary()
    } else if rows[0].0 == name {
        rows[0].1
    } else {
        phrase_for(rows.drop_first(), name)
    }
}

impl SeedStore {
    /// The store's invariant: at most one row per wallet name.
    pub open spec fn wf(&self) -> bool {
        forall|i: int, j: int|
            0 <= i < j < self@.len() ==> (#[trigger] self@[i]).0 != (#[trigger] self@[j]).0
    }

    /// A store with no records yet.
    pub fn new() -> (r: SeedStore)
        ensures
            r@ == Seq::<(Seq<char>, Seq<char>)>::empty(),
            r.wf(),
    {
        let r = SeedStore { rows: Vec::new() };
        proof {
            assert(r@ =~= Seq::<(Seq<char>, Seq<char>)>::empty());
        }
        r
    }
}

/// What bootstrapping does to the seed table: an existing row wins and
/// nothing changes; otherwise the fresh phrase is recorded and returned.
pub open spec fn ensure_seed_model(
    rows: Seq<(Seq<char>, Seq<char>)>,
    name: Seq<char>,
    fresh: Seq<char>,
) -> (Seq<(Seq<char>, Seq<char>)>, Seq<char>) {
    if has_name(rows, name) {
        (rows, phrase_for(rows, name))
    } else {
        (rows.push((name, fresh)), fresh)
    }
}

/// The mnemonic phrase that the BIP-39 scheme derives from a given
/// entropy buffer at the fixed twelve-word count.
pub uninterp spec fn mnemonic_of(entropy: Seq<u8>) -> Seq<char>;

/// Relies on bdk_wallet's BIP-39 key generation
/// (`GeneratableKey::<Tap>::generate_with_entropy` for `Mnemonic`): at the
/// twelve-word count it derives the phrase from a prefix of the entropy
/// buffer alone, so the result is a function of the entropy; with a full
/// 32-byte buffer the entropy is always long enough and generation cannot
/// fail.
#[verifier::external_body]
fn derive_mnemonic(entropy: &[u8; 32]) -> (r: String)
    ensures
        r@ == mnemonic_of(entropy@),
{
    let generated: bdk_wallet::keys::GeneratedKey<
        bdk_wallet::bip39::Mnemonic,
        bdk_wallet::miniscript::Tap,
    > = bdk_wallet::keys::GeneratableKey::generate_with_entropy(
        (bdk_wallet::keys::bip39::WordCount::Words12, bdk_wallet::bip39::Language::English),
        *entropy,
    ).expect("32 bytes always cover the twelve-word entropy length");
    generated.to_string()
}

/// Relies on rand's thread-local generator (re-exported through
/// bitcoin's key module) to fill the buffer; nothing is assumed of the
/// bytes beyond their count.
#[verifier::external_body]
fn fresh_entropy() -> (r: [u8; 32])
    ensures
        r@.len() == 32,
{
    let mut rng = bdk_wallet::bitcoin::key::rand::thread_rng();
    let mut entropy = [0u8; 32];
    bdk_wallet::bitcoin::key::rand::Rng::fill(&mut rng, &mut entropy);
    entropy
}

proof fn lemma_phrase_for_first(rows: Seq<(Seq<char>, Seq<char>)>, name: Seq<char>, i: int)
    requires
        0 <= i < rows.len(),
        rows[i].0 == name,
        forall|k: int| 0 <= k < i ==> (#[trigger] rows[k]).0 != name,
    ensures
        has_name(rows, name),
        phrase_for(rows, name) == rows[i].1,
    decreases i,
{
    if i > 0 {
        assert(rows.drop_first()[i - 1].0 == name);
        assert forall|k: int| 0 <= k < i - 1 implies (#[trigger] rows.drop_first()[k]).0
            != name by {
            assert(rows[k + 1].0 != name);
        }
        lemma_phrase_for_first(rows.drop_first(), name, i - 1);
    }
}

/// Returns the phrase bound to `name`, binding the phrase derived from
/// `entropy` first when the store has none: the recovery path returns
/// the stored phrase unchanged, the first-run path writes exactly one
/// new row.
pub fn ensure_seed(store: &mut SeedStore, name: &String, entropy: &[u8; 32]) -> (phrase: String)
    ensures
        (final(store)@, phrase@) == ensure_seed_model(old(store)@, name@, mnemonic_of(entropy@)),
        old(store).wf() ==> final(store).wf(),
{
    let ghost rows0 = store@;
    let mut i: usize = 0;
    while i < store.rows.len()
        invariant
            0 <= i <= store.rows@.len(),
            store == old(store),
            rows0 == store@,
            forall|k: int| 0 <= k < i ==> (#[trigger] rows0[k]).0 != name@,
        decreases store.rows@.len() - i,
    {
        if store.rows[i].name == *name {
            proof {
                lemma_phrase_for_first(rows0, name@, i as int);
            }
            return store.rows[i].phrase.clone();
        }
        proof {
            assert(rows0[i as int].0 == store.rows@[i as int].name@);
        }
        i = i + 1;
    }
    proof {
        assert(!has_name(rows0, name@));
    }
    let phrase = derive_mnemonic(entropy);
    let row = SeedRow { name: name.clone(), phrase: phrase.clone() };
    store.rows.push(row);
    proof {
        assert(final(store)@ =~= rows0.push((name@, mnemonic_of(entropy@))));
        if old(store).wf() {
            assert forall|a: int, b: int| 0 <= a < b < final(store)@.len() implies (
            #[trigger] final(store)@[a]).0 != (#[trigger] final(store)@[b]).0 by {
                if b == final(store)@.len() - 1 {
                    assert(final(store)@[a] == rows0[a]);
                }
            }
        }
    }
    phrase
}

/// Bootstraps the wallet's seed with fresh entropy: the stored phrase
/// when one exists, otherwise a newly derived phrase from unpredictable
/// entropy, recorded in the store.
pub fn bootstrap_seed(store: &mut SeedStore, name: &String) -> (phrase: String)
    ensures
        exists|e: Seq<u8>|
            (final(store)@, phrase@) == #[trigger] ensure_seed_model(
                old(store)@,
                name@,
                mnemonic_of(e),
            ),
        old(store).wf() ==> final(store).wf(),
{
    let entropy = fresh_entropy();
    let phrase = ensure_seed(store, name, &entropy);
    proof {
        assert((final(store)@, phrase@) == ensure_seed_model(
            old(store)@,
            name@,
            mnemonic_of(entropy@),
        ));
    }
    phrase
}

/// Law: bootstrapping is idempotent. Running `ensure_seed` twice against
/// an empty store — with whatever fresh phrases the two runs derive —
/// returns the same phrase both times and leaves exactly one record.
pub proof fn lemma_bootstrap_idempotent(name: Seq<char>, f1: Seq<char>, f2: Seq<char>)
    ensures
        ({
            let (rows1, p1) = ensure_seed_model(Seq::empty(), name, f1);
            let (rows2, p2) = ensure_seed_model(rows1, name, f2);
            &&& p1 == f1
            &&& p2 == p1
            &&& rows2 == rows1
            &&& rows1.len() == 1
        }),
{
    let empty = Seq::<(Seq<char>, Seq<char>)>::empty();
    assert(!has_name(empty, name));
    let rows1 = empty.push((name, f1));
    assert(rows1[0].0 == name);
    assert(has_name(rows1, name));
    assert(phrase_for(rows1, name) == f1);
}

} // verus!
