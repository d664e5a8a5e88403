//! Plain-value data model for the transaction-plus-metadata bundle.
//!
//! The signer works on this model directly: a bundle holds the serialized
//! unsigned transaction together with one record per input, and signing
//! mutates the targeted record's signature fields in place.

use vstd::prelude::*;

verus! {

/// A spent output: the amount and the locking script of the output an input
/// of the transaction consumes.
#[derive(Debug, Clone, PartialEq, Eq)]
pub struct TxOutRecord {
    /// Amount in the smallest unit.
    pub value: u64,
    /// Raw bytes of the locking script.
    pub script_pubkey: Vec<u8>,
}

impl View for TxOutRecord {
    type V = (u64, Seq<u8>);

    open spec fn view(&self) -> (u64, Seq<u8>) {
        (self.value, self.script_pubkey@)
    }
}

/// Where a recorded public key claims to come from: the fingerprint of an
/// ancestor master key and the derivation path below that master.
#[derive(Debug, Clone, PartialEq, Eq)]
pub struct KeyOrigin {
    /// Four-byte fingerprint of the claimed ancestor master key.
    pub fingerprint: Vec<u8>,
    /// Child indices to walk from the master to the recorded key.
    pub path: Vec<u32>,
}

/// One row of an input's expected-signer table: a public key, the script
/// leaves it may sign for, and the origin it claims.
#[derive(Debug, Clone, PartialEq, Eq)]
pub struct SignerEntry {
    /// The recorded x-only public key (32 bytes).
    pub pubkey: Vec<u8>,
    /// Identifiers (leaf hashes, 32 bytes each) of the script leaves this key
    /// may sign for.
    pub leaves: Vec<Vec<u8>>,
    /// The recorded origin of the key; never trusted blindly.
    pub origin: KeyOrigin,
}

/// A produced signature together with the sighash flag it commits to.
#[derive(Debug, Clone, PartialEq, Eq)]
pub struct SigData {
    /// 64-byte Schnorr signature.
    pub sig: Vec<u8>,
    /// The sighash-type flag the signature was made with.
    pub hash_ty: u8,
}

impl View for SigData {
    type V = (Seq<u8>, u8);

    open spec fn view(&self) -> (Seq<u8>, u8) {
        (self.sig@, self.hash_ty)
    }
}

/// One entry of an input's script-path signature table, keyed by the signing
/// public key and the leaf identifier.
#[derive(Debug, Clone, PartialEq, Eq)]
pub struct LeafSigEntry {
    /// X-only public key the signature belongs to (32 bytes).
    pub pubkey: Vec<u8>,
    /// Identifier of the signed script leaf (32 bytes).
    pub leaf: Vec<u8>,
    /// The signature itself.
    pub sig: SigData,
}

/// Mutable per-input state: what is known about the output being spent and,
/// after signing, the signatures attached to it.
#[derive(Debug, Clone, PartialEq, Eq)]
pub struct InputRecord {
    /// The output this input spends; required for any signing attempt.
    pub witness_utxo: Option<TxOutRecord>,
    /// The output's recorded internal (untweaked commitment) key, 32 bytes.
    pub tap_internal_key: Option<Vec<u8>>,
    /// Root of the output's script tree; absent for key-path-only outputs.
    pub tap_merkle_root: Option<Vec<u8>>,
    /// The expected-signer table for this input.
    pub tap_key_origins: Vec<SignerEntry>,
    /// Key-path signature, once produced.
    pub tap_key_sig: Option<SigData>,
    /// Script-path signatures, keyed by (public key, leaf identifier).
    pub tap_script_sigs: Vec<LeafSigEntry>,
}

/// A partially signed transaction bundle: the serialized unsigned
/// transaction and one record per transaction input.
#[derive(Debug, Clone, PartialEq, Eq)]
pub struct PsbtBundle {
    /// Consensus-serialized unsigned transaction.
    pub tx: Vec<u8>,
    /// Per-input metadata and signature state, one record per input.
    pub inputs: Vec<InputRecord>,
}

/// The signature stored for `(pk, leaf)`, with a later entry overriding an
/// earlier one for the same pair.
pub open spec fn find_sig(s: Seq<LeafSigEntry>, pk: Seq<u8>, leaf: Seq<u8>) -> Option<(Seq<u8>, u8)>
    decreases s.len(),
{
    if s.len() == 0 {
        None
    } else if s.last().pubkey@ == pk && s.last().leaf@ == leaf {
        Some(s.last().sig@)
    } else {
        find_sig(s.drop_last(), pk, leaf)
    }
}

/// No two rows of a script-path signature table are keyed by the same
/// (public key, leaf identifier) pair.
pub open spec fn unique_sig_keys(s: Seq<LeafSigEntry>) -> bool {
    forall|a: int, b: int|
        0 <= a < b < s.len() ==> !((#[trigger] s[a]).pubkey@ == (#[trigger] s[b]).pubkey@
            && s[a].leaf@ == s[b].leaf@)
}

/// No two rows of an expected-signer table record the same public key.
pub open spec fn unique_entry_keys(s: Seq<SignerEntry>) -> bool {
    forall|a: int, b: int|
        0 <= a < b < s.len() ==> (#[trigger] s[a]).pubkey@ != (#[trigger] s[b]).pubkey@
}

impl InputRecord {
    /// Well-formedness: both tables keep their keys unique.
    pub open spec fn wf(self) -> bool {
        &&& unique_entry_keys(self.tap_key_origins@)
        &&& unique_sig_keys(self.tap_script_sigs@)
    }
}

impl PsbtBundle {
    /// Well-formedness: every input record is well formed.
    pub open spec fn wf(self) -> bool {
        forall|i: int| 0 <= i < self.inputs@.len() ==> (#[trigger] self.inputs@[i]).wf()
    }
}

/// The number of signature-table rows keyed by public key `pk`.
pub open spec fn count_for_key(s: Seq<LeafSigEntry>, pk: Seq<u8>) -> nat
    decreases s.len(),
{
    if s.len() == 0 {
        0
    } else {
        count_for_key(s.drop_last(), pk) + (if s.last().pubkey@ == pk {
            1nat
        } else {
            0nat
        })
    }
}

/// The leaf identifiers of the signature-table rows keyed by `pk`.
pub open spec fn leaves_for_key(s: Seq<LeafSigEntry>, pk: Seq<u8>) -> Set<Seq<u8>>
    decreases s.len(),
{
    if s.len() == 0 {
        Set::empty()
    } else if s.last().pubkey@ == pk {
        leaves_for_key(s.drop_last(), pk).insert(s.last().leaf@)
    } else {
        leaves_for_key(s.drop_last(), pk)
    }
}

/// The distinct identifiers among a list of leaves.
pub open spec fn distinct_leaves(leaves: Seq<Vec<u8>>) -> Set<Seq<u8>>
    decreases leaves.len(),
{
    if leaves.len() == 0 {
        Set::empty()
    } else {
        distinct_leaves(leaves.drop_last()).insert(leaves.last()@)
    }
}

/// A leaf is keyed under `pk` exactly when its lookup finds a signature.
pub proof fn lemma_leaves_for_key_membership(s: Seq<LeafSigEntry>, pk: Seq<u8>, l: Seq<u8>)
    ensures
        leaves_for_key(s, pk).contains(l) == (find_sig(s, pk, l) is Some),
    decreases s.len(),
{
    if s.len() > 0 {
        lemma_leaves_for_key_membership(s.drop_last(), pk, l);
    }
}

/// The distinct-leaf set holds exactly the identifiers that occur in the
/// list.
pub proof fn lemma_distinct_leaves_membership(leaves: Seq<Vec<u8>>, l: Seq<u8>)
    ensures
        distinct_leaves(leaves).contains(l) == (exists|j: int|
            0 <= j < leaves.len() && (#[trigger] leaves[j])@ == l),
    decreases leaves.len(),
{
    if leaves.len() > 0 {
        lemma_distinct_leaves_membership(leaves.drop_last(), l);
        if distinct_leaves(leaves).contains(l) {
            if leaves.last()@ == l {
                assert(leaves[leaves.len() - 1]@ == l);
            } else {
                let j = choose|j: int|
                    0 <= j < leaves.drop_last().len() && (#[trigger] leaves.drop_last()[j])@ == l;
                assert(leaves[j]@ == l);
            }
        }
        if exists|j: int| 0 <= j < leaves.len() && (#[trigger] leaves[j])@ == l {
            let j = choose|j: int| 0 <= j < leaves.len() && (#[trigger] leaves[j])@ == l;
            if j < leaves.len() - 1 {
                assert(leaves.drop_last()[j]@ == l);
            }
        }
    }
}

/// Under unique keys, the rows keyed by `pk` count their distinct leaves:
/// the per-key set is finite and its size is the per-key row count.
pub proof fn lemma_count_is_leaf_set_size(s: Seq<LeafSigEntry>, pk: Seq<u8>)
    requires
        unique_sig_keys(s),
    ensures
        leaves_for_key(s, pk).finite(),
        count_for_key(s, pk) == leaves_for_key(s, pk).len(),
    decreases s.len(),
{
    if s.len() > 0 {
        assert(unique_sig_keys(s.drop_last())) by {
            assert(forall|a: int|
                0 <= a < s.drop_last().len() ==> s.drop_last()[a] == s[a]);
        }
        lemma_count_is_leaf_set_size(s.drop_last(), pk);
        if s.last().pubkey@ == pk {
            // the last row's key occurs nowhere earlier
            assert(find_sig(s.drop_last(), pk, s.last().leaf@) is None) by {
                assert forall|k: int| 0 <= k < s.drop_last().len() implies !((
                #[trigger] s.drop_last()[k]).pubkey@ == pk && s.drop_last()[k].leaf@
                    == s.last().leaf@) by {
                    assert(s[k] == s.drop_last()[k]);
                }
                lemma_find_sig_none(s.drop_last(), pk, s.last().leaf@);
            }
            lemma_leaves_for_key_membership(s.drop_last(), pk, s.last().leaf@);
            assert(!leaves_for_key(s.drop_last(), pk).contains(s.last().leaf@));
        }
    }
}

/// A key held by no row looks up to nothing.
pub proof fn lemma_find_sig_none(s: Seq<LeafSigEntry>, pk: Seq<u8>, l: Seq<u8>)
    requires
        forall|k: int| 0 <= k < s.len() ==> !((#[trigger] s[k]).pubkey@ == pk && s[k].leaf@ == l),
    ensures
        find_sig(s, pk, l) is None,
    decreases s.len(),
{
    if s.len() > 0 {
        lemma_find_sig_none(s.drop_last(), pk, l);
    }
}

/// A table whose rows all carry public key `pk` has as many rows as its
/// per-key count.
pub proof fn lemma_count_all_rows(s: Seq<LeafSigEntry>, pk: Seq<u8>)
    requires
        forall|k: int| 0 <= k < s.len() ==> (#[trigger] s[k]).pubkey@ == pk,
    ensures
        count_for_key(s, pk) == s.len(),
    decreases s.len(),
{
    if s.len() > 0 {
        assert(forall|k: int|
            0 <= k < s.drop_last().len() ==> s.drop_last()[k] == s[k]);
        lemma_count_all_rows(s.drop_last(), pk);
    }
}

/// Every row's own key looks up a signature.
pub proof fn lemma_row_lookup_some(s: Seq<LeafSigEntry>, k: int)
    requires
        0 <= k < s.len(),
    ensures
        find_sig(s, s[k].pubkey@, s[k].leaf@) is Some,
    decreases s.len(),
{
    if k < s.len() - 1 {
        assert(s.drop_last()[k] == s[k]);
        lemma_row_lookup_some(s.drop_last(), k);
    }
}

/// The least input index that lacks its spent output, if any.
pub open spec fn first_missing_utxo(inputs: Seq<InputRecord>, from: int) -> Option<int>
    decreases inputs.len() - from,
{
    if from < 0 || from >= inputs.len() {
        None
    } else if inputs[from].witness_utxo is None {
        Some(from)
    } else {
        first_missing_utxo(inputs, from + 1)
    }
}

/// The spent outputs of all inputs, in input order; meaningful only when no
/// input lacks one.
pub open spec fn prevouts_view(inputs: Seq<InputRecord>) -> Seq<(u64, Seq<u8>)> {
    inputs.map_values(|r: InputRecord| r.witness_utxo.unwrap()@)
}

} // verus!
