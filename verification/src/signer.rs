//! The signing engine: key matching, key-path signing and tapleaf signing.

use vstd::prelude::*;

use crate::crypto::{
    compute_taproot_sighash, schnorr_sign, spec_leaf, tap_tweak_secret, taproot_sighash,
    xonly_pubkey, xpriv_check, xpriv_derive_secret, xpriv_fingerprint_bytes, xpriv_root_secret,
};
use crate::crypto::{
    prevouts_parts, schnorr_sig, secret_ok, spec_merkle, tap_tweaked, xonly_of, xpriv_derive,
    xpriv_fingerprint, xpriv_ok, xpriv_root,
};
use crate::model::{
    count_for_key, distinct_leaves, find_sig, first_missing_utxo, lemma_count_all_rows,
    lemma_count_is_leaf_set_size, lemma_distinct_leaves_membership, lemma_find_sig_none,
    lemma_leaves_for_key_membership, lemma_row_lookup_some, leaves_for_key, prevouts_view,
    unique_entry_keys, unique_sig_keys, InputRecord, LeafSigEntry, PsbtBundle, SigData,
    SignerEntry, TxOutRecord,
};
use crate::PSBTSigningError;

verus! {

/// The reserved "no code separator has been executed" sentinel position.
pub const DEFAULT_CODESEP: u32 = 0xffff_ffff;

/// Whether an expected-signer entry belongs to this signer: its recorded
/// fingerprint is the signer's own and the public key re-derived along its
/// recorded path equals the recorded one.
pub open spec fn entry_matches(x: Seq<u8>, e: SignerEntry) -> bool {
    &&& e.origin.fingerprint@ == xpriv_fingerprint(x)
    &&& xonly_of(xpriv_derive(x, e.origin.path@)) == e.pubkey@
}

/// The secret re-derived along a matching entry's recorded path.
pub open spec fn entry_secret(x: Seq<u8>, e: SignerEntry) -> Seq<u8> {
    xpriv_derive(x, e.origin.path@)
}

/// The signature a matching entry receives for leaf `l`, or `None` where the
/// digest cannot be computed.
pub open spec fn leaf_sig_value(
    x: Seq<u8>,
    tx: Seq<u8>,
    pv: Seq<(u64, Seq<u8>)>,
    idx: int,
    hash_ty: u8,
    e: SignerEntry,
    l: Seq<u8>,
) -> Option<(Seq<u8>, u8)> {
    match taproot_sighash(tx, pv, idx, hash_ty, Some((l, DEFAULT_CODESEP))) {
        Some(d) => Some((schnorr_sig(entry_secret(x, e), d), hash_ty)),
        None => None,
    }
}

/// Whether `(pk, l)` is one of the (public key, leaf) pairs the table
/// entitles this signer to sign.
pub open spec fn covers(table: Seq<SignerEntry>, x: Seq<u8>, pk: Seq<u8>, l: Seq<u8>) -> bool {
    exists|i: int, j: int|
        0 <= i < table.len() && 0 <= j < table[i].leaves@.len() && entry_matches(x, table[i])
            && table[i].pubkey@ == pk && (#[trigger] table[i].leaves@[j])@ == l
}

/// How a script-path signature table `s1` relates to its previous state `s0`
/// after tapleaf signing: every pair the table entitles this signer to sign
/// holds its freshly computed signature, and every other pair is unchanged.
pub open spec fn tapleaf_signed(
    x: Seq<u8>,
    tx: Seq<u8>,
    pv: Seq<(u64, Seq<u8>)>,
    idx: int,
    hash_ty: u8,
    table: Seq<SignerEntry>,
    s0: Seq<LeafSigEntry>,
    s1: Seq<LeafSigEntry>,
) -> bool {
    &&& forall|i: int, j: int|
        0 <= i < table.len() && 0 <= j < table[i].leaves@.len() && entry_matches(x, table[i])
            ==> find_sig(s1, table[i].pubkey@, (#[trigger] table[i].leaves@[j])@) == leaf_sig_value(
            x,
            tx,
            pv,
            idx,
            hash_ty,
            table[i],
            table[i].leaves@[j]@,
        )
    &&& forall|pk: Seq<u8>, l: Seq<u8>|
        !covers(table, x, pk, l) ==> #[trigger] find_sig(s1, pk, l) == find_sig(s0, pk, l)
}

/// The abstract value of an optional commitment held in an input record.
pub open spec fn merkle_view(m: Option<Vec<u8>>) -> Option<Seq<u8>> {
    match m {
        Some(v) => Some(v@),
        None => None,
    }
}

/// Whether tweaking the signer's root key by the input's commitment yields
/// exactly the input's recorded internal key.
pub open spec fn keypath_pubkey_matches(x: Seq<u8>, rec: InputRecord) -> bool {
    &&& tap_tweaked(xpriv_root(x), merkle_view(rec.tap_merkle_root)) is Some
    &&& rec.tap_internal_key is Some
    &&& xonly_of(tap_tweaked(xpriv_root(x), merkle_view(rec.tap_merkle_root)).unwrap())
        == rec.tap_internal_key.unwrap()@
}

/// The key-path signature for an input whose internal key matches, or `None`
/// where the digest cannot be computed.
pub open spec fn keypath_sig_value(
    x: Seq<u8>,
    tx: Seq<u8>,
    pv: Seq<(u64, Seq<u8>)>,
    idx: int,
    hash_ty: u8,
    rec: InputRecord,
) -> Option<(Seq<u8>, u8)> {
    match taproot_sighash(tx, pv, idx, hash_ty, None) {
        Some(d) => Some(
            (
                schnorr_sig(
                    tap_tweaked(xpriv_root(x), merkle_view(rec.tap_merkle_root)).unwrap(),
                    d,
                ),
                hash_ty,
            ),
        ),
        None => None,
    }
}

/// Whether some digest this signer is obliged to sign for this input cannot
/// be computed.
pub open spec fn sighash_fails(
    x: Seq<u8>,
    tx: Seq<u8>,
    pv: Seq<(u64, Seq<u8>)>,
    idx: int,
    hash_ty: u8,
    rec: InputRecord,
) -> bool {
    ||| (keypath_pubkey_matches(x, rec) && taproot_sighash(tx, pv, idx, hash_ty, None) is None)
    ||| some_leaf_sighash_fails(x, tx, pv, idx, hash_ty, rec.tap_key_origins@)
}

/// Whether the digest of some leaf a matching entry may sign for cannot be
/// computed.
pub open spec fn some_leaf_sighash_fails(
    x: Seq<u8>,
    tx: Seq<u8>,
    pv: Seq<(u64, Seq<u8>)>,
    idx: int,
    hash_ty: u8,
    table: Seq<SignerEntry>,
) -> bool {
    exists|i: int, j: int|
        0 <= i < table.len() && 0 <= j < table[i].leaves@.len() && entry_matches(x, table[i])
            && taproot_sighash(
            tx,
            pv,
            idx,
            hash_ty,
            Some(((#[trigger] table[i].leaves@[j])@, DEFAULT_CODESEP)),
        ) is None
}

/// Whether `(pk, l)` is among the pairs put down by the first `upto` yields
/// of the key matcher.
pub open spec fn ms_covers(
    ms: Seq<MatchedKey>,
    table: Seq<SignerEntry>,
    upto: int,
    pk: Seq<u8>,
    l: Seq<u8>,
) -> bool {
    exists|kk: int, b: int|
        0 <= kk < upto && kk < ms.len() && ms[kk].entry < table.len() && 0 <= b
            < table[ms[kk].entry as int].leaves@.len() && table[ms[kk].entry as int].pubkey@ == pk
            && (#[trigger] table[ms[kk].entry as int].leaves@[b])@ == l
}

/// Whether `l` occurs among the first `upto` leaf identifiers of a list.
pub open spec fn leaf_among(leaves: Seq<Vec<u8>>, upto: int, l: Seq<u8>) -> bool {
    exists|b: int| 0 <= b < upto && b < leaves.len() && (#[trigger] leaves[b])@ == l
}

/// The complete outcome of one sign-input operation on a bundle: which
/// result is returned on which inputs, and exactly how the bundle changes.
pub open spec fn sign_outcome(
    x: Seq<u8>,
    b0: PsbtBundle,
    b1: PsbtBundle,
    idx: int,
    hash_ty: u8,
    r: Result<(), PSBTSigningError>,
) -> bool {
    let tx = b0.tx@;
    let pv = prevouts_view(b0.inputs@);
    match r {
        Result::Err(e) => b1 == b0 && match e {
            PSBTSigningError::NoUTXOAtIndex(i) => first_missing_utxo(b0.inputs@, 0) == Some(
                i as int,
            ),
            PSBTSigningError::NoInputAtIndex(i) => i == idx
                && first_missing_utxo(b0.inputs@, 0) is None && idx >= b0.inputs@.len(),
            PSBTSigningError::SighashFailure => first_missing_utxo(b0.inputs@, 0) is None && 0
                <= idx < b0.inputs@.len() && sighash_fails(
                x,
                tx,
                pv,
                idx,
                hash_ty,
                b0.inputs@[idx],
            ),
        },
        Result::Ok(u) => {
            let r0 = b0.inputs@[idx];
            let r1 = b1.inputs@[idx];
            &&& first_missing_utxo(b0.inputs@, 0) is None
            &&& 0 <= idx < b0.inputs@.len()
            &&& !sighash_fails(x, tx, pv, idx, hash_ty, r0)
            &&& b1.tx == b0.tx
            &&& b1.inputs@.len() == b0.inputs@.len()
            &&& (forall|i: int|
                0 <= i < b0.inputs@.len() && i != idx ==> b1.inputs@[i] == #[trigger] b0.inputs@[i])
            &&& r1.witness_utxo == r0.witness_utxo
            &&& r1.tap_internal_key == r0.tap_internal_key
            &&& r1.tap_merkle_root == r0.tap_merkle_root
            &&& r1.tap_key_origins == r0.tap_key_origins
            &&& (keypath_pubkey_matches(x, r0) ==> (r1.tap_key_sig matches Some(s) && s@
                == keypath_sig_value(x, tx, pv, idx, hash_ty, r0).unwrap()))
            &&& (!keypath_pubkey_matches(x, r0) ==> r1.tap_key_sig == r0.tap_key_sig)
            &&& tapleaf_signed(
                x,
                tx,
                pv,
                idx,
                hash_ty,
                r0.tap_key_origins@,
                r0.tap_script_sigs@,
                r1.tap_script_sigs@,
            )
        },
    }
}

/// Byte-for-byte copy of a byte vector.
pub(crate) fn copy_bytes(v: &Vec<u8>) -> (r: Vec<u8>)
    ensures
        r@ == v@,
{
    let mut r: Vec<u8> = Vec::new();
    let mut i: usize = 0;
    while i < v.len()
        invariant
            i <= v@.len(),
            r@ == v@.take(i as int),
        decreases v@.len() - i,
    {
        r.push(v[i]);
        proof {
            assert(v@.take(i as int + 1) =~= v@.take(i as int).push(v@[i as int]));
        }
        i += 1;
    }
    proof {
        assert(v@.take(v@.len() as int) =~= v@);
    }
    r
}

/// Whether two byte vectors hold the same bytes.
pub(crate) fn bytes_eq(a: &Vec<u8>, b: &Vec<u8>) -> (r: bool)
    ensures
        r == (a@ == b@),
{
    if a.len() != b.len() {
        return false;
    }
    let mut i: usize = 0;
    while i < a.len()
        invariant
            i <= a@.len(),
            a@.len() == b@.len(),
            forall|j: int| 0 <= j < i ==> a@[j] == b@[j],
        decreases a@.len() - i,
    {
        if a[i] != b[i] {
            return false;
        }
        i += 1;
    }
    proof {
        assert(a@ =~= b@);
    }
    true
}

/// Computes the signature digest of the targeted input for one spend path
/// — the key path when `leaf` is absent, the given script leaf's path when
/// present — and produces the deterministic Schnorr signature over it,
/// tagged with the sighash flag used. `None` means the digest could not be
/// computed.
pub(crate) fn get_sig(
    tx: &Vec<u8>,
    prevouts: &Vec<TxOutRecord>,
    idx: usize,
    hash_ty: u8,
    secret: &Vec<u8>,
    leaf: Option<(&Vec<u8>, u32)>,
) -> (r: Option<SigData>)
    requires
        secret_ok(secret@),
    ensures
        r is Some == taproot_sighash(
            tx@,
            prevouts_parts(prevouts@),
            idx as int,
            hash_ty,
            spec_leaf(leaf),
        ) is Some,
        r matches Some(s) ==> s@ == (
            schnorr_sig(
                secret@,
                taproot_sighash(
                    tx@,
                    prevouts_parts(prevouts@),
                    idx as int,
                    hash_ty,
                    spec_leaf(leaf),
                ).unwrap(),
            ),
            hash_ty,
        ),
{
    match compute_taproot_sighash(tx, prevouts, idx, hash_ty, leaf) {
        Some(d) => Some(SigData { sig: schnorr_sign(secret, &d), hash_ty }),
        None => None,
    }
}

/// Appending an entry changes the lookup only at the appended key.
proof fn lemma_find_sig_push(s: Seq<LeafSigEntry>, e: LeafSigEntry, pk: Seq<u8>, l: Seq<u8>)
    ensures
        find_sig(s.push(e), pk, l) == (if e.pubkey@ == pk && e.leaf@ == l {
            Some(e.sig@)
        } else {
            find_sig(s, pk, l)
        }),
{
    assert(s.push(e).last() == e);
    assert(s.push(e).drop_last() =~= s);
}

/// Replacing the entry that holds a key changes the lookup only at that key.
proof fn lemma_find_sig_update(s: Seq<LeafSigEntry>, i: int, e: LeafSigEntry, pk: Seq<u8>, l: Seq<u8>)
    requires
        0 <= i < s.len(),
        unique_sig_keys(s),
        s[i].pubkey@ == e.pubkey@,
        s[i].leaf@ == e.leaf@,
    ensures
        find_sig(s.update(i, e), pk, l) == (if e.pubkey@ == pk && e.leaf@ == l {
            Some(e.sig@)
        } else {
            find_sig(s, pk, l)
        }),
    decreases s.len(),
{
    let t = s.update(i, e);
    assert(t.len() == s.len());
    if i == s.len() - 1 {
        assert(t.last() == e);
        assert(t.drop_last() =~= s.drop_last());
    } else {
        assert(t.last() == s.last());
        assert(t.drop_last() =~= s.drop_last().update(i, e));
        assert(unique_sig_keys(s.drop_last())) by {
            assert(forall|a: int, b: int|
                0 <= a < b < s.drop_last().len() ==> s.drop_last()[a] == s[a] && s.drop_last()[b]
                    == s[b]);
        }
        // the last entry cannot hold the replaced key
        assert(!(s.last().pubkey@ == e.pubkey@ && s.last().leaf@ == e.leaf@));
        lemma_find_sig_update(s.drop_last(), i, e, pk, l);
    }
}

/// Stores a signature under `(pk, leaf)`, overwriting any earlier signature
/// for that exact pair and leaving every other pair unchanged.
pub(crate) fn upsert_sig(sigs: &mut Vec<LeafSigEntry>, e: &LeafSigEntry)
    requires
        unique_sig_keys(old(sigs)@),
    ensures
        unique_sig_keys(final(sigs)@),
        find_sig(final(sigs)@, e.pubkey@, e.leaf@) == Some(e.sig@),
        forall|pk: Seq<u8>, l: Seq<u8>|
            !(pk == e.pubkey@ && l == e.leaf@) ==> #[trigger] find_sig(final(sigs)@, pk, l)
                == find_sig(old(sigs)@, pk, l),
{
    let fresh = LeafSigEntry {
        pubkey: copy_bytes(&e.pubkey),
        leaf: copy_bytes(&e.leaf),
        sig: SigData { sig: copy_bytes(&e.sig.sig), hash_ty: e.sig.hash_ty },
    };
    let mut i: usize = 0;
    while i < sigs.len()
        invariant
            i <= sigs@.len(),
            unique_sig_keys(sigs@),
            sigs@ == old(sigs)@,
            fresh.pubkey@ == e.pubkey@,
            fresh.leaf@ == e.leaf@,
            fresh.sig@ == e.sig@,
            forall|k: int|
                0 <= k < i ==> !((#[trigger] sigs@[k]).pubkey@ == e.pubkey@ && sigs@[k].leaf@
                    == e.leaf@),
        decreases sigs@.len() - i,
    {
        if bytes_eq(&sigs[i].pubkey, &e.pubkey) && bytes_eq(&sigs[i].leaf, &e.leaf) {
            proof {
                lemma_find_sig_update_all(sigs@, i as int, fresh);
            }
            let ghost prev = sigs@;
            sigs[i] = fresh;
            proof {
                assert(sigs@ =~= prev.update(i as int, fresh));
                assert(unique_sig_keys(sigs@)) by {
                    assert(forall|a: int|
                        0 <= a < sigs@.len() && a != i ==> sigs@[a] == prev[a]);
                }
            }
            return ;
        }
        i += 1;
    }
    proof {
        lemma_find_sig_none(sigs@, e.pubkey@, e.leaf@);
        lemma_find_sig_push_all(sigs@, fresh);
    }
    sigs.push(fresh);
}

/// `lemma_find_sig_update` for every key at once.
proof fn lemma_find_sig_update_all(s: Seq<LeafSigEntry>, i: int, e: LeafSigEntry)
    requires
        0 <= i < s.len(),
        unique_sig_keys(s),
        s[i].pubkey@ == e.pubkey@,
        s[i].leaf@ == e.leaf@,
    ensures
        forall|pk: Seq<u8>, l: Seq<u8>|
            #[trigger] find_sig(s.update(i, e), pk, l) == (if e.pubkey@ == pk && e.leaf@ == l {
                Some(e.sig@)
            } else {
                find_sig(s, pk, l)
            }),
{
    assert forall|pk: Seq<u8>, l: Seq<u8>|
        #[trigger] find_sig(s.update(i, e), pk, l) == (if e.pubkey@ == pk && e.leaf@ == l {
            Some(e.sig@)
        } else {
            find_sig(s, pk, l)
        }) by {
        lemma_find_sig_update(s, i, e, pk, l);
    }
}

/// `lemma_find_sig_push` for every key at once.
proof fn lemma_find_sig_push_all(s: Seq<LeafSigEntry>, e: LeafSigEntry)
    ensures
        forall|pk: Seq<u8>, l: Seq<u8>|
            #[trigger] find_sig(s.push(e), pk, l) == (if e.pubkey@ == pk && e.leaf@ == l {
                Some(e.sig@)
            } else {
                find_sig(s, pk, l)
            }),
{
    assert forall|pk: Seq<u8>, l: Seq<u8>|
        #[trigger] find_sig(s.push(e), pk, l) == (if e.pubkey@ == pk && e.leaf@ == l {
            Some(e.sig@)
        } else {
            find_sig(s, pk, l)
        }) by {
        lemma_find_sig_push(s, e, pk, l);
    }
}

/// The signing process's one hierarchical secret, held as its well-formed
/// serialized form.
pub struct SigningKey {
    xpriv: Vec<u8>,
}

impl View for SigningKey {
    type V = Seq<u8>;

    closed spec fn view(&self) -> Seq<u8> {
        self.xpriv@
    }
}

/// One yield of the key matcher: the index of the satisfied expected-signer
/// entry and the child secret re-derived along its recorded path.
pub struct MatchedKey {
    /// Index of the satisfied entry in the table that was scanned.
    pub entry: usize,
    /// The re-derived 32-byte child secret.
    pub secret: Vec<u8>,
}

impl SigningKey {
    #[verifier::type_invariant]
    spec fn inv(self) -> bool {
        xpriv_ok(self.xpriv@)
    }

    /// Takes ownership of a serialized extended private key; rejects bytes
    /// that are not a well-formed serialization.
    pub fn from_bytes(xpriv: Vec<u8>) -> (r: Option<SigningKey>)
        ensures
            r is Some <==> xpriv_ok(xpriv@),
            r matches Some(k) ==> k@ == xpriv@,
    {
        if xpriv_check(&xpriv) {
            Some(SigningKey { xpriv })
        } else {
            None
        }
    }

    /// The fingerprint of this signer's master public identity.
    pub fn fingerprint(&self) -> (r: Vec<u8>)
        ensures
            r@ == xpriv_fingerprint(self@),
            r@.len() == 4,
    {
        proof {
            use_type_invariant(&*self);
        }
        xpriv_fingerprint_bytes(&self.xpriv)
    }

    /// Scans an expected-signer table and yields every entry this signer can
    /// satisfy: the recorded fingerprint is this signer's own and the key
    /// re-derived along the recorded path equals the recorded one. Entries
    /// failing either comparison are dropped without error.
    pub fn compute_matching_keys(&self, table: &Vec<SignerEntry>) -> (r: Vec<MatchedKey>)
        ensures
            forall|k: int|
                0 <= k < r@.len() ==> {
                    let m = #[trigger] r@[k];
                    &&& m.entry < table@.len()
                    &&& entry_matches(self@, table@[m.entry as int])
                    &&& m.secret@ == entry_secret(self@, table@[m.entry as int])
                    &&& secret_ok(m.secret@)
                },
            forall|i: int|
                0 <= i < table@.len() && entry_matches(self@, #[trigger] table@[i])
                    ==> exists|k: int| 0 <= k < r@.len() && (#[trigger] r@[k]).entry == i,
            forall|k1: int, k2: int|
                0 <= k1 < k2 < r@.len() ==> (#[trigger] r@[k1]).entry < (#[trigger] r@[k2]).entry,
    {
        proof {
            use_type_invariant(&*self);
        }
        let fp = xpriv_fingerprint_bytes(&self.xpriv);
        let mut r: Vec<MatchedKey> = Vec::new();
        let mut i: usize = 0;
        while i < table.len()
            invariant
                i <= table@.len(),
                xpriv_ok(self@),
                fp@ == xpriv_fingerprint(self@),
                forall|k: int|
                    0 <= k < r@.len() ==> {
                        let m = #[trigger] r@[k];
                        &&& m.entry < i
                        &&& entry_matches(self@, table@[m.entry as int])
                        &&& m.secret@ == entry_secret(self@, table@[m.entry as int])
                        &&& secret_ok(m.secret@)
                    },
                forall|ii: int|
                    0 <= ii < i && entry_matches(self@, #[trigger] table@[ii])
                        ==> exists|k: int| 0 <= k < r@.len() && (#[trigger] r@[k]).entry == ii,
                forall|k1: int, k2: int|
                    0 <= k1 < k2 < r@.len() ==> (#[trigger] r@[k1]).entry
                        < (#[trigger] r@[k2]).entry,
            decreases table@.len() - i,
        {
            let e = &table[i];
            if bytes_eq(&e.origin.fingerprint, &fp) {
                let secret = xpriv_derive_secret(&self.xpriv, &e.origin.path);
                let pk = xonly_pubkey(&secret);
                if bytes_eq(&pk, &e.pubkey) {
                    let ghost prev = r@;
                    r.push(MatchedKey { entry: i, secret });
                    proof {
                        assert forall|ii: int|
                            0 <= ii < i + 1 && entry_matches(
                                self@,
                                #[trigger] table@[ii],
                            ) implies exists|k: int|
                            0 <= k < r@.len() && (#[trigger] r@[k]).entry == ii by {
                            if ii < i {
                                let k = choose|k: int|
                                    0 <= k < prev.len() && (#[trigger] prev[k]).entry == ii;
                                assert(r@[k].entry == ii);
                            } else {
                                assert(r@[r@.len() - 1].entry == ii);
                            }
                        }
                    }
                }
            }
            i += 1;
        }
        r
    }

    /// Computes the key-path signature of the targeted input: tweaks the
    /// root key by the input's script-tree commitment and signs when the
    /// tweaked key's public half equals the recorded internal key. A
    /// mismatch is no error; an uncomputable digest is.
    pub fn sign_taproot_top_key(
        &self,
        rec: &InputRecord,
        tx: &Vec<u8>,
        prevouts: &Vec<TxOutRecord>,
        idx: usize,
        hash_ty: u8,
    ) -> (r: Result<Option<SigData>, PSBTSigningError>)
        ensures
            match r {
                Result::Ok(opt) => {
                    &&& !(keypath_pubkey_matches(self@, *rec) && taproot_sighash(
                        tx@,
                        prevouts_parts(prevouts@),
                        idx as int,
                        hash_ty,
                        None,
                    ) is None)
                    &&& (keypath_pubkey_matches(self@, *rec) ==> (opt matches Some(s) && s@
                        == keypath_sig_value(
                        self@,
                        tx@,
                        prevouts_parts(prevouts@),
                        idx as int,
                        hash_ty,
                        *rec,
                    ).unwrap()))
                    &&& (!keypath_pubkey_matches(self@, *rec) ==> opt is None)
                },
                Result::Err(e) => {
                    &&& e == PSBTSigningError::SighashFailure
                    &&& keypath_pubkey_matches(self@, *rec)
                    &&& taproot_sighash(
                        tx@,
                        prevouts_parts(prevouts@),
                        idx as int,
                        hash_ty,
                        None,
                    ) is None
                },
            },
    {
        proof {
            use_type_invariant(&*self);
        }
        let root = xpriv_root_secret(&self.xpriv);
        let tweaked_opt = tap_tweak_secret(&root, rec.tap_merkle_root.as_ref());
        match tweaked_opt {
            Some(t) => {
                let tpk = xonly_pubkey(&t);
                let is_match = match &rec.tap_internal_key {
                    Some(ik) => bytes_eq(ik, &tpk),
                    None => false,
                };
                if is_match {
                    match get_sig(tx, prevouts, idx, hash_ty, &t, None) {
                        Some(sd) => Ok(Some(sd)),
                        None => Err(PSBTSigningError::SighashFailure),
                    }
                } else {
                    Ok(None)
                }
            },
            None => Ok(None),
        }
    }

    /// Computes one script-path signature per (matching entry, permitted
    /// leaf) pair of the targeted input's expected-signer table, each with
    /// the entry's re-derived untweaked key, and returns them as a fresh
    /// signature list; an uncomputable digest is an error.
    pub fn sign_all_tapleaf_branches(
        &self,
        rec: &InputRecord,
        tx: &Vec<u8>,
        prevouts: &Vec<TxOutRecord>,
        idx: usize,
        hash_ty: u8,
    ) -> (r: Result<Vec<LeafSigEntry>, PSBTSigningError>)
        requires
            unique_entry_keys(rec.tap_key_origins@),
        ensures
            match r {
                Result::Ok(ns) => {
                    &&& (forall|i: int, j: int|
                        0 <= i < rec.tap_key_origins@.len() && 0 <= j
                            < rec.tap_key_origins@[i].leaves@.len() && entry_matches(
                            self@,
                            rec.tap_key_origins@[i],
                        ) ==> find_sig(
                            ns@,
                            rec.tap_key_origins@[i].pubkey@,
                            (#[trigger] rec.tap_key_origins@[i].leaves@[j])@,
                        ) == leaf_sig_value(
                            self@,
                            tx@,
                            prevouts_parts(prevouts@),
                            idx as int,
                            hash_ty,
                            rec.tap_key_origins@[i],
                            rec.tap_key_origins@[i].leaves@[j]@,
                        ))
                    &&& (forall|pk: Seq<u8>, l: Seq<u8>|
                        !covers(rec.tap_key_origins@, self@, pk, l) ==> #[trigger] find_sig(
                            ns@,
                            pk,
                            l,
                        ) is None)
                    &&& !some_leaf_sighash_fails(
                        self@,
                        tx@,
                        prevouts_parts(prevouts@),
                        idx as int,
                        hash_ty,
                        rec.tap_key_origins@,
                    )
                },
                Result::Err(e) => {
                    &&& e == PSBTSigningError::SighashFailure
                    &&& some_leaf_sighash_fails(
                        self@,
                        tx@,
                        prevouts_parts(prevouts@),
                        idx as int,
                        hash_ty,
                        rec.tap_key_origins@,
                    )
                },
            },
    {
        let ghost x = self@;
        let ghost table = rec.tap_key_origins@;
        let ghost pv = prevouts_parts(prevouts@);
        let ms = self.compute_matching_keys(&rec.tap_key_origins);
        let mut ns: Vec<LeafSigEntry> = Vec::new();
        let mut k: usize = 0;
        while k < ms.len()
            invariant
                k <= ms@.len(),
                table == rec.tap_key_origins@,
                pv == prevouts_parts(prevouts@),
                x == self@,
                unique_entry_keys(table),
                forall|kk: int|
                    0 <= kk < ms@.len() ==> {
                        let m = #[trigger] ms@[kk];
                        &&& m.entry < table.len()
                        &&& entry_matches(x, table[m.entry as int])
                        &&& m.secret@ == entry_secret(x, table[m.entry as int])
                        &&& secret_ok(m.secret@)
                    },
                forall|i: int|
                    0 <= i < table.len() && entry_matches(x, #[trigger] table[i])
                        ==> exists|kk: int| 0 <= kk < ms@.len() && (#[trigger] ms@[kk]).entry == i,
                forall|k1: int, k2: int|
                    0 <= k1 < k2 < ms@.len() ==> (#[trigger] ms@[k1]).entry
                        < (#[trigger] ms@[k2]).entry,
                forall|kk: int, b: int|
                    0 <= kk < k && 0 <= b < table[ms@[kk].entry as int].leaves@.len()
                        ==> find_sig(
                        ns@,
                        table[ms@[kk].entry as int].pubkey@,
                        (#[trigger] table[ms@[kk].entry as int].leaves@[b])@,
                    ) == leaf_sig_value(
                        x,
                        tx@,
                        pv,
                        idx as int,
                        hash_ty,
                        table[ms@[kk].entry as int],
                        table[ms@[kk].entry as int].leaves@[b]@,
                    ) && leaf_sig_value(
                        x,
                        tx@,
                        pv,
                        idx as int,
                        hash_ty,
                        table[ms@[kk].entry as int],
                        table[ms@[kk].entry as int].leaves@[b]@,
                    ) is Some,
                forall|pk: Seq<u8>, l: Seq<u8>|
                    !ms_covers(ms@, table, k as int, pk, l) ==> #[trigger] find_sig(
                        ns@,
                        pk,
                        l,
                    ) is None,
            decreases ms@.len() - k,
        {
            let m_entry = ms[k].entry;
            let e = &rec.tap_key_origins[m_entry];
            let ghost ei = m_entry as int;
            let mut j: usize = 0;
            while j < e.leaves.len()
                invariant
                    j <= e.leaves@.len(),
                    k < ms@.len(),
                    m_entry == ms@[k as int].entry,
                    table == rec.tap_key_origins@,
                    pv == prevouts_parts(prevouts@),
                    x == self@,
                    ei == m_entry as int,
                    ei < table.len(),
                    e == table[ei],
                    entry_matches(x, table[ei]),
                    ms@[k as int].secret@ == entry_secret(x, table[ei]),
                    secret_ok(ms@[k as int].secret@),
                    unique_entry_keys(table),
                    forall|kk: int|
                        0 <= kk < ms@.len() ==> {
                            let m = #[trigger] ms@[kk];
                            &&& m.entry < table.len()
                            &&& entry_matches(x, table[m.entry as int])
                            &&& m.secret@ == entry_secret(x, table[m.entry as int])
                            &&& secret_ok(m.secret@)
                        },
                    forall|k1: int, k2: int|
                        0 <= k1 < k2 < ms@.len() ==> (#[trigger] ms@[k1]).entry
                            < (#[trigger] ms@[k2]).entry,
                    forall|kk: int, b: int|
                        0 <= kk < k && 0 <= b < table[ms@[kk].entry as int].leaves@.len()
                            ==> find_sig(
                            ns@,
                            table[ms@[kk].entry as int].pubkey@,
                            (#[trigger] table[ms@[kk].entry as int].leaves@[b])@,
                        ) == leaf_sig_value(
                            x,
                            tx@,
                            pv,
                            idx as int,
                            hash_ty,
                            table[ms@[kk].entry as int],
                            table[ms@[kk].entry as int].leaves@[b]@,
                        ) && leaf_sig_value(
                            x,
                            tx@,
                            pv,
                            idx as int,
                            hash_ty,
                            table[ms@[kk].entry as int],
                            table[ms@[kk].entry as int].leaves@[b]@,
                        ) is Some,
                    forall|b: int|
                        0 <= b < j ==> find_sig(
                            ns@,
                            table[ei].pubkey@,
                            (#[trigger] table[ei].leaves@[b])@,
                        ) == leaf_sig_value(
                            x,
                            tx@,
                            pv,
                            idx as int,
                            hash_ty,
                            table[ei],
                            table[ei].leaves@[b]@,
                        ) && leaf_sig_value(
                            x,
                            tx@,
                            pv,
                            idx as int,
                            hash_ty,
                            table[ei],
                            table[ei].leaves@[b]@,
                        ) is Some,
                    forall|pk: Seq<u8>, l: Seq<u8>|
                        !ms_covers(ms@, table, k as int, pk, l) && !(pk == table[ei].pubkey@
                            && leaf_among(table[ei].leaves@, j as int, l)) ==> #[trigger] find_sig(
                            ns@,
                            pk,
                            l,
                        ) is None,
                decreases e.leaves@.len() - j,
            {
                let leaf = &e.leaves[j];
                match get_sig(
                    tx,
                    prevouts,
                    idx,
                    hash_ty,
                    &ms[k].secret,
                    Some((leaf, DEFAULT_CODESEP)),
                ) {
                    Some(sd) => {
                        let fresh = LeafSigEntry {
                            pubkey: copy_bytes(&e.pubkey),
                            leaf: copy_bytes(leaf),
                            sig: sd,
                        };
                        proof {
                            lemma_find_sig_push_all(ns@, fresh);
                        }
                        let ghost prev = ns@;
                        ns.push(fresh);
                        proof {
                            assert forall|pk: Seq<u8>, l: Seq<u8>|
                                !ms_covers(ms@, table, k as int, pk, l) && !(pk == table[ei].pubkey@
                                    && leaf_among(
                                    table[ei].leaves@,
                                    j as int + 1,
                                    l,
                                )) implies #[trigger] find_sig(ns@, pk, l) is None by {
                                assert(!(pk == table[ei].pubkey@ && l == table[ei].leaves@[
                                    j as int]@));
                                assert(find_sig(prev, pk, l) is None);
                            }
                        }
                    },
                    None => {
                        proof {
                            assert(some_leaf_sighash_fails(
                                x,
                                tx@,
                                pv,
                                idx as int,
                                hash_ty,
                                table,
                            )) by {
                                let jj = j as int;
                                assert(0 <= ei < table.len() && 0 <= jj
                                    && jj < table[ei].leaves@.len() && entry_matches(x, table[ei])
                                    && taproot_sighash(
                                    tx@,
                                    pv,
                                    idx as int,
                                    hash_ty,
                                    Some(((table[ei].leaves@[jj])@, DEFAULT_CODESEP)),
                                ) is None);
                            }
                        }
                        return Err(PSBTSigningError::SighashFailure);
                    },
                }
                j += 1;
            }
            proof {
                assert forall|pk: Seq<u8>, l: Seq<u8>|
                    !ms_covers(ms@, table, k as int + 1, pk, l) implies #[trigger] find_sig(
                    ns@,
                    pk,
                    l,
                ) is None by {
                    assert(!ms_covers(ms@, table, k as int, pk, l)) by {
                        if ms_covers(ms@, table, k as int, pk, l) {
                            let (kk, b) = choose|kk: int, b: int|
                                0 <= kk < k as int && kk < ms@.len() && ms@[kk].entry < table.len()
                                    && 0 <= b < table[ms@[kk].entry as int].leaves@.len()
                                    && table[ms@[kk].entry as int].pubkey@ == pk
                                    && (#[trigger] table[ms@[kk].entry as int].leaves@[b])@ == l;
                            assert(ms_covers(ms@, table, k as int + 1, pk, l));
                        }
                    }
                    assert(!(pk == table[ei].pubkey@ && leaf_among(
                        table[ei].leaves@,
                        e.leaves@.len() as int,
                        l,
                    ))) by {
                        if pk == table[ei].pubkey@ && leaf_among(
                            table[ei].leaves@,
                            e.leaves@.len() as int,
                            l,
                        ) {
                            let b = choose|b: int|
                                0 <= b < e.leaves@.len() && b < table[ei].leaves@.len()
                                    && (#[trigger] table[ei].leaves@[b])@ == l;
                            let ki = k as int;
                            assert(0 <= ki && ki < ki + 1 && ki < ms@.len()
                                && ms@[ki].entry < table.len() && 0 <= b
                                < table[ms@[ki].entry as int].leaves@.len()
                                && table[ms@[ki].entry as int].pubkey@ == pk
                                && (table[ms@[ki].entry as int].leaves@[b])@ == l);
                            assert(ms_covers(ms@, table, k as int + 1, pk, l));
                        }
                    }
                }
            }
            k += 1;
        }
        proof {
            assert forall|i: int, j: int|
                0 <= i < table.len() && 0 <= j < table[i].leaves@.len() && entry_matches(
                    x,
                    table[i],
                ) implies find_sig(ns@, table[i].pubkey@, (#[trigger] table[i].leaves@[j])@)
                == leaf_sig_value(x, tx@, pv, idx as int, hash_ty, table[i], table[i].leaves@[j]@)
                && leaf_sig_value(
                x,
                tx@,
                pv,
                idx as int,
                hash_ty,
                table[i],
                table[i].leaves@[j]@,
            ) is Some by {
                let kk = choose|kk: int| 0 <= kk < ms@.len() && (#[trigger] ms@[kk]).entry == i;
                assert(ms@[kk].entry as int == i);
            }
            assert forall|pk: Seq<u8>, l: Seq<u8>| !covers(table, x, pk, l) implies #[trigger] find_sig(
                ns@,
                pk,
                l,
            ) is None by {
                assert(!ms_covers(ms@, table, ms@.len() as int, pk, l)) by {
                    if ms_covers(ms@, table, ms@.len() as int, pk, l) {
                        let (kk, b) = choose|kk: int, b: int|
                            0 <= kk < ms@.len() as int && kk < ms@.len() && ms@[kk].entry
                                < table.len() && 0 <= b
                                < table[ms@[kk].entry as int].leaves@.len()
                                && table[ms@[kk].entry as int].pubkey@ == pk
                                && (#[trigger] table[ms@[kk].entry as int].leaves@[b])@ == l;
                        let i = ms@[kk].entry as int;
                        assert(0 <= i < table.len() && 0 <= b < table[i].leaves@.len()
                            && entry_matches(x, table[i]) && table[i].pubkey@ == pk && (table[
                            i].leaves@[b])@ == l);
                        assert(covers(table, x, pk, l));
                    }
                }
            }
            assert(!some_leaf_sighash_fails(x, tx@, pv, idx as int, hash_ty, table)) by {
                if some_leaf_sighash_fails(x, tx@, pv, idx as int, hash_ty, table) {
                    let (i, j) = choose|i: int, j: int|
                        0 <= i < table.len() && 0 <= j < table[i].leaves@.len() && entry_matches(
                            x,
                            table[i],
                        ) && taproot_sighash(
                            tx@,
                            pv,
                            idx as int,
                            hash_ty,
                            Some(((#[trigger] table[i].leaves@[j])@, DEFAULT_CODESEP)),
                        ) is None;
                    assert(leaf_sig_value(
                        x,
                        tx@,
                        pv,
                        idx as int,
                        hash_ty,
                        table[i],
                        table[i].leaves@[j]@,
                    ) is Some);
                }
            }
        }
        Ok(ns)
    }

    /// Signs the targeted input of the bundle in place: collects the spent
    /// output of every input (failing fast if any is absent), locates the
    /// targeted record, then attaches the key-path signature and every
    /// script-path signature this signer is authorized to contribute. On any
    /// failure the bundle is left unchanged.
    pub fn sign_psbt_input_mut(
        &self,
        psbt: &mut PsbtBundle,
        idx: usize,
        hash_ty: u8,
    ) -> (r: Result<(), PSBTSigningError>)
        requires
            old(psbt).wf(),
        ensures
            final(psbt).wf(),
            sign_outcome(self@, *old(psbt), *final(psbt), idx as int, hash_ty, r),
    {
        let ghost x = self@;
        let ghost b0 = *psbt;
        let mut prevouts: Vec<TxOutRecord> = Vec::new();
        let n = psbt.inputs.len();
        let mut i: usize = 0;
        while i < n
            invariant
                n == psbt.inputs@.len(),
                *psbt == b0,
                b0 == *old(psbt),
                b0.wf(),
                i <= n,
                prevouts@.len() == i as int,
                forall|j: int| 0 <= j < i ==> (#[trigger] psbt.inputs@[j]).witness_utxo is Some,
                forall|j: int|
                    0 <= j < i ==> (#[trigger] prevouts@[j])@
                        == psbt.inputs@[j].witness_utxo.unwrap()@,
                first_missing_utxo(b0.inputs@, 0) == first_missing_utxo(b0.inputs@, i as int),
            decreases n - i,
        {
            let has_utxo = match &psbt.inputs[i].witness_utxo {
                Some(u) => {
                    prevouts.push(
                        TxOutRecord { value: u.value, script_pubkey: copy_bytes(&u.script_pubkey) },
                    );
                    true
                },
                None => false,
            };
            if !has_utxo {
                proof {
                    assert(first_missing_utxo(b0.inputs@, i as int) == Some(i as int));
                }
                return Err(PSBTSigningError::NoUTXOAtIndex(i));
            }
            i += 1;
        }
        proof {
            assert(first_missing_utxo(b0.inputs@, n as int) is None);
            assert(prevouts_parts(prevouts@) =~= prevouts_view(b0.inputs@));
        }
        if idx >= n {
            return Err(PSBTSigningError::NoInputAtIndex(idx));
        }
        let ghost pv = prevouts_view(b0.inputs@);
        let ghost rec0 = b0.inputs@[idx as int];
        let keypath_opt = match self.sign_taproot_top_key(
            &psbt.inputs[idx],
            &psbt.tx,
            &prevouts,
            idx,
            hash_ty,
        ) {
            Ok(o) => o,
            Err(e) => {
                return Err(e);
            },
        };
        let new_sigs = match self.sign_all_tapleaf_branches(
            &psbt.inputs[idx],
            &psbt.tx,
            &prevouts,
            idx,
            hash_ty,
        ) {
            Ok(ns) => ns,
            Err(e) => {
                return Err(e);
            },
        };
        let ghost s0 = rec0.tap_script_sigs@;
        let mut rec = psbt.inputs.remove(idx);
        match keypath_opt {
            Some(sd) => {
                rec.tap_key_sig = Some(sd);
            },
            None => {},
        }
        let mut k: usize = 0;
        while k < new_sigs.len()
            invariant
                k <= new_sigs@.len(),
                unique_sig_keys(rec.tap_script_sigs@),
                rec.witness_utxo == rec0.witness_utxo,
                rec.tap_internal_key == rec0.tap_internal_key,
                rec.tap_merkle_root == rec0.tap_merkle_root,
                rec.tap_key_origins == rec0.tap_key_origins,
                rec.tap_key_sig == (match keypath_opt {
                    Some(sd) => Some(sd),
                    None => rec0.tap_key_sig,
                }),
                forall|pk: Seq<u8>, l: Seq<u8>|
                    #[trigger] find_sig(rec.tap_script_sigs@, pk, l) == (if find_sig(
                        new_sigs@.take(k as int),
                        pk,
                        l,
                    ) is Some {
                        find_sig(new_sigs@.take(k as int), pk, l)
                    } else {
                        find_sig(s0, pk, l)
                    }),
            decreases new_sigs@.len() - k,
        {
            upsert_sig(&mut rec.tap_script_sigs, &new_sigs[k]);
            proof {
                assert(new_sigs@.take(k as int + 1) =~= new_sigs@.take(k as int).push(
                    new_sigs@[k as int],
                ));
                lemma_find_sig_push_all(new_sigs@.take(k as int), new_sigs@[k as int]);
            }
            k += 1;
        }
        proof {
            assert(new_sigs@.take(new_sigs@.len() as int) =~= new_sigs@);
        }
        psbt.inputs.insert(idx, rec);
        proof {
            assert forall|i2: int|
                0 <= i2 < b0.inputs@.len() && i2 != idx implies psbt.inputs@[i2]
                == #[trigger] b0.inputs@[i2] by {
                if i2 < idx {
                } else {
                    assert(psbt.inputs@[i2] == b0.inputs@.remove(idx as int)[i2 - 1]);
                }
            }
            let r1 = psbt.inputs@[idx as int];
            assert(r1.tap_script_sigs@ == rec.tap_script_sigs@);
            assert(tapleaf_signed(
                x,
                b0.tx@,
                pv,
                idx as int,
                hash_ty,
                rec0.tap_key_origins@,
                s0,
                r1.tap_script_sigs@,
            )) by {
                assert forall|i2: int, j2: int|
                    0 <= i2 < rec0.tap_key_origins@.len() && 0 <= j2
                        < rec0.tap_key_origins@[i2].leaves@.len() && entry_matches(
                        x,
                        rec0.tap_key_origins@[i2],
                    ) implies find_sig(
                    r1.tap_script_sigs@,
                    rec0.tap_key_origins@[i2].pubkey@,
                    (#[trigger] rec0.tap_key_origins@[i2].leaves@[j2])@,
                ) == leaf_sig_value(
                    x,
                    b0.tx@,
                    pv,
                    idx as int,
                    hash_ty,
                    rec0.tap_key_origins@[i2],
                    rec0.tap_key_origins@[i2].leaves@[j2]@,
                ) by {
                    assert(find_sig(
                        new_sigs@,
                        rec0.tap_key_origins@[i2].pubkey@,
                        rec0.tap_key_origins@[i2].leaves@[j2]@,
                    ) == leaf_sig_value(
                        x,
                        b0.tx@,
                        pv,
                        idx as int,
                        hash_ty,
                        rec0.tap_key_origins@[i2],
                        rec0.tap_key_origins@[i2].leaves@[j2]@,
                    ));
                }
            }
            assert(psbt.wf()) by {
                assert(forall|i2: int|
                    0 <= i2 < psbt.inputs@.len() && i2 != idx ==> (#[trigger] psbt.inputs@[i2]).wf());
                assert(unique_entry_keys(r1.tap_key_origins@));
            }
        }
        Ok(())
    }

    /// Signs input 0 of the bundle in place.
    pub fn sign_psbt_mut(&self, psbt: &mut PsbtBundle, hash_ty: u8) -> (r: Result<
        (),
        PSBTSigningError,
    >)
        requires
            old(psbt).wf(),
        ensures
            final(psbt).wf(),
            sign_outcome(self@, *old(psbt), *final(psbt), 0, hash_ty, r),
    {
        self.sign_psbt_input_mut(psbt, 0, hash_ty)
    }

    /// Signs the targeted input of an owned bundle; on failure the bundle
    /// comes back unchanged beside the error.
    pub fn sign_psbt_input(&self, psbt: PsbtBundle, idx: usize, hash_ty: u8) -> (r: Result<
        PsbtBundle,
        (PsbtBundle, PSBTSigningError),
    >)
        requires
            psbt.wf(),
        ensures
            match r {
                Result::Ok(b) => b.wf() && sign_outcome(
                    self@,
                    psbt,
                    b,
                    idx as int,
                    hash_ty,
                    Result::Ok(()),
                ),
                Result::Err((b, e)) => b == psbt && sign_outcome(
                    self@,
                    psbt,
                    b,
                    idx as int,
                    hash_ty,
                    Result::Err(e),
                ),
            },
    {
        let mut p = psbt;
        match self.sign_psbt_input_mut(&mut p, idx, hash_ty) {
            Ok(u) => Ok(p),
            Err(e) => Err((p, e)),
        }
    }

    /// Signs input 0 of an owned bundle; on failure the bundle comes back
    /// unchanged beside the error.
    pub fn sign_psbt(&self, psbt: PsbtBundle, hash_ty: u8) -> (r: Result<
        PsbtBundle,
        (PsbtBundle, PSBTSigningError),
    >)
        requires
            psbt.wf(),
        ensures
            match r {
                Result::Ok(b) => b.wf() && sign_outcome(
                    self@,
                    psbt,
                    b,
                    0,
                    hash_ty,
                    Result::Ok(()),
                ),
                Result::Err((b, e)) => b == psbt && sign_outcome(
                    self@,
                    psbt,
                    b,
                    0,
                    hash_ty,
                    Result::Err(e),
                ),
            },
    {
        self.sign_psbt_input(psbt, 0, hash_ty)
    }
}

/// No mutation on failure: whenever a sign-input operation reports an
/// error — a missing spent output, an out-of-range index, or an
/// uncomputable digest — the bundle afterwards is exactly the bundle
/// before.
pub proof fn lemma_no_mutation_on_failure(
    x: Seq<u8>,
    b0: PsbtBundle,
    b1: PsbtBundle,
    idx: int,
    hash_ty: u8,
    e: PSBTSigningError,
)
    requires
        sign_outcome(x, b0, b1, idx, hash_ty, Result::Err(e)),
    ensures
        b1 == b0,
{
}

/// Origin integrity: an expected-signer entry whose re-derived key does not
/// equal its recorded public key — whether its recorded fingerprint is this
/// signer's own or not — never receives a script-path signature: every
/// signature stored under its recorded public key is exactly what was stored
/// before, and the operation still succeeds.
pub proof fn lemma_origin_integrity(
    x: Seq<u8>,
    b0: PsbtBundle,
    b1: PsbtBundle,
    idx: int,
    hash_ty: u8,
    i: int,
    l: Seq<u8>,
)
    requires
        b0.wf(),
        sign_outcome(x, b0, b1, idx, hash_ty, Result::Ok(())),
        0 <= idx < b0.inputs@.len(),
        0 <= i < b0.inputs@[idx].tap_key_origins@.len(),
        !entry_matches(x, b0.inputs@[idx].tap_key_origins@[i]),
    ensures
        find_sig(
            b1.inputs@[idx].tap_script_sigs@,
            b0.inputs@[idx].tap_key_origins@[i].pubkey@,
            l,
        ) == find_sig(
            b0.inputs@[idx].tap_script_sigs@,
            b0.inputs@[idx].tap_key_origins@[i].pubkey@,
            l,
        ),
{
    let table = b0.inputs@[idx].tap_key_origins@;
    let pk = table[i].pubkey@;
    assert(!covers(table, x, pk, l)) by {
        if covers(table, x, pk, l) {
            let (a, b) = choose|a: int, b: int|
                0 <= a < table.len() && 0 <= b < table[a].leaves@.len() && entry_matches(
                    x,
                    table[a],
                ) && table[a].pubkey@ == pk && (#[trigger] table[a].leaves@[b])@ == l;
            assert(a != i);
            assert(table[a].pubkey@ != table[i].pubkey@);
        }
    }
}

/// Tweak correctness: for an input that held no key-path signature, one is
/// added if and only if tweaking the root key pair by the input's
/// script-tree commitment yields a public key equal to the input's recorded
/// internal key.
pub proof fn lemma_tweak_correctness(
    x: Seq<u8>,
    b0: PsbtBundle,
    b1: PsbtBundle,
    idx: int,
    hash_ty: u8,
)
    requires
        b0.wf(),
        sign_outcome(x, b0, b1, idx, hash_ty, Result::Ok(())),
        0 <= idx < b0.inputs@.len(),
        b0.inputs@[idx].tap_key_sig is None,
    ensures
        b1.inputs@[idx].tap_key_sig is Some <==> keypath_pubkey_matches(x, b0.inputs@[idx]),
{
}

/// Covered pairs hold signatures: on success, the lookup under a matching
/// entry's key for one of its leaves finds a signature, and every pair the
/// table does not cover is exactly what it was before.
proof fn lemma_covered_lookup(
    x: Seq<u8>,
    b0: PsbtBundle,
    b1: PsbtBundle,
    idx: int,
    hash_ty: u8,
    pk: Seq<u8>,
    l: Seq<u8>,
)
    requires
        b0.wf(),
        sign_outcome(x, b0, b1, idx, hash_ty, Result::Ok(())),
        0 <= idx < b0.inputs@.len(),
    ensures
        covers(b0.inputs@[idx].tap_key_origins@, x, pk, l) ==> find_sig(
            b1.inputs@[idx].tap_script_sigs@,
            pk,
            l,
        ) is Some,
        !covers(b0.inputs@[idx].tap_key_origins@, x, pk, l) ==> find_sig(
            b1.inputs@[idx].tap_script_sigs@,
            pk,
            l,
        ) == find_sig(b0.inputs@[idx].tap_script_sigs@, pk, l),
{
    let table = b0.inputs@[idx].tap_key_origins@;
    let tx = b0.tx@;
    let pv = prevouts_view(b0.inputs@);
    if covers(table, x, pk, l) {
        let (a, b) = choose|a: int, b: int|
            0 <= a < table.len() && 0 <= b < table[a].leaves@.len() && entry_matches(x, table[a])
                && table[a].pubkey@ == pk && (#[trigger] table[a].leaves@[b])@ == l;
        assert(find_sig(b1.inputs@[idx].tap_script_sigs@, pk, (table[a].leaves@[b])@)
            == leaf_sig_value(x, tx, pv, idx, hash_ty, table[a], l));
        assert(taproot_sighash(tx, pv, idx, hash_ty, Some((l, DEFAULT_CODESEP))) is Some) by {
            if taproot_sighash(tx, pv, idx, hash_ty, Some((l, DEFAULT_CODESEP))) is None {
                assert(some_leaf_sighash_fails(x, tx, pv, idx, hash_ty, table)) by {
                    assert(0 <= a < table.len() && 0 <= b < table[a].leaves@.len()
                        && entry_matches(x, table[a]) && taproot_sighash(
                        tx,
                        pv,
                        idx,
                        hash_ty,
                        Some(((table[a].leaves@[b])@, DEFAULT_CODESEP)),
                    ) is None);
                }
            }
        }
    }
}

/// Idempotent re-signing, count form: starting from an input that held no
/// script-path signatures, a successful signing leaves, under each matching
/// entry's public key, exactly one row per distinct leaf identifier the
/// entry may sign for.
pub proof fn lemma_signature_count(
    x: Seq<u8>,
    b0: PsbtBundle,
    b1: PsbtBundle,
    idx: int,
    hash_ty: u8,
    i: int,
)
    requires
        b0.wf(),
        b1.wf(),
        sign_outcome(x, b0, b1, idx, hash_ty, Result::Ok(())),
        0 <= idx < b0.inputs@.len(),
        b0.inputs@[idx].tap_script_sigs@.len() == 0,
        0 <= i < b0.inputs@[idx].tap_key_origins@.len(),
        entry_matches(x, b0.inputs@[idx].tap_key_origins@[i]),
    ensures
        count_for_key(
            b1.inputs@[idx].tap_script_sigs@,
            b0.inputs@[idx].tap_key_origins@[i].pubkey@,
        ) == distinct_leaves(b0.inputs@[idx].tap_key_origins@[i].leaves@).len(),
{
    let table = b0.inputs@[idx].tap_key_origins@;
    let pk = table[i].pubkey@;
    let s1 = b1.inputs@[idx].tap_script_sigs@;
    lemma_count_is_leaf_set_size(s1, pk);
    assert forall|l: Seq<u8>| #[trigger] leaves_for_key(s1, pk).contains(l)
        == distinct_leaves(table[i].leaves@).contains(l) by {
        lemma_leaves_for_key_membership(s1, pk, l);
        lemma_distinct_leaves_membership(table[i].leaves@, l);
        lemma_covered_lookup(x, b0, b1, idx, hash_ty, pk, l);
        if covers(table, x, pk, l) {
            // under unique table keys only entry i can cover (pk, l)
            let (a, b) = choose|a: int, b: int|
                0 <= a < table.len() && 0 <= b < table[a].leaves@.len() && entry_matches(
                    x,
                    table[a],
                ) && table[a].pubkey@ == pk && (#[trigger] table[a].leaves@[b])@ == l;
            assert(a == i);
        }
        if distinct_leaves(table[i].leaves@).contains(l) {
            let j = choose|j: int| 0 <= j < table[i].leaves@.len() && (#[trigger] table[i].leaves@[j])@ == l;
            assert(covers(table, x, pk, l)) by {
                assert(0 <= i < table.len() && 0 <= j < table[i].leaves@.len() && entry_matches(
                    x,
                    table[i],
                ) && table[i].pubkey@ == pk && (table[i].leaves@[j])@ == l);
            }
        }
    }
    assert(leaves_for_key(s1, pk) =~= distinct_leaves(table[i].leaves@));
}

/// The two-leaf scenario: one expected-signer entry this signer satisfies,
/// permitted to sign two distinct leaves, on an input whose recorded
/// internal key no tweak of the root key matches and which holds no
/// signatures yet. A successful signing leaves the key-path signature
/// absent and the script-path table with exactly two rows, the entry's key
/// paired with each of the two leaf identifiers.
pub proof fn lemma_two_leaf_scenario(
    x: Seq<u8>,
    b0: PsbtBundle,
    b1: PsbtBundle,
    idx: int,
    hash_ty: u8,
)
    requires
        b0.wf(),
        b1.wf(),
        sign_outcome(x, b0, b1, idx, hash_ty, Result::Ok(())),
        0 <= idx < b0.inputs@.len(),
        b0.inputs@[idx].tap_script_sigs@.len() == 0,
        b0.inputs@[idx].tap_key_sig is None,
        !keypath_pubkey_matches(x, b0.inputs@[idx]),
        b0.inputs@[idx].tap_key_origins@.len() == 1,
        entry_matches(x, b0.inputs@[idx].tap_key_origins@[0]),
        b0.inputs@[idx].tap_key_origins@[0].leaves@.len() == 2,
        b0.inputs@[idx].tap_key_origins@[0].leaves@[0]@
            != b0.inputs@[idx].tap_key_origins@[0].leaves@[1]@,
    ensures
        b1.inputs@[idx].tap_key_sig is None,
        forall|j: int|
            #![trigger b0.inputs@[idx].tap_key_origins@[0].leaves@[j]]
            0 <= j < 2 ==> {
                let e = b0.inputs@[idx].tap_key_origins@[0];
                let stored = find_sig(
                    b1.inputs@[idx].tap_script_sigs@,
                    e.pubkey@,
                    e.leaves@[j]@,
                );
                &&& stored is Some
                &&& stored == leaf_sig_value(
                    x,
                    b0.tx@,
                    prevouts_view(b0.inputs@),
                    idx,
                    hash_ty,
                    e,
                    e.leaves@[j]@,
                )
                &&& stored.unwrap().1 == hash_ty
            },
        b1.inputs@[idx].tap_script_sigs@.len() == 2,
{
    let table = b0.inputs@[idx].tap_key_origins@;
    let e = table[0];
    let pk = e.pubkey@;
    let ls = e.leaves@;
    let s1 = b1.inputs@[idx].tap_script_sigs@;
    // both covered pairs hold signatures
    assert(covers(table, x, pk, ls[0]@)) by {
        assert(0 <= 0 < table.len() && 0 <= 0 < table[0].leaves@.len() && entry_matches(
            x,
            table[0],
        ) && table[0].pubkey@ == pk && (table[0].leaves@[0])@ == ls[0]@);
    }
    assert(covers(table, x, pk, ls[1]@)) by {
        assert(0 <= 0 < table.len() && 0 <= 1 < table[0].leaves@.len() && entry_matches(
            x,
            table[0],
        ) && table[0].pubkey@ == pk && (table[0].leaves@[1])@ == ls[1]@);
    }
    lemma_covered_lookup(x, b0, b1, idx, hash_ty, pk, ls[0]@);
    lemma_covered_lookup(x, b0, b1, idx, hash_ty, pk, ls[1]@);
    // every row carries the entry's key: any other key is uncovered and was
    // absent before
    assert forall|k: int| 0 <= k < s1.len() implies (#[trigger] s1[k]).pubkey@ == pk by {
        lemma_row_lookup_some(s1, k);
        if s1[k].pubkey@ != pk {
            assert(!covers(table, x, s1[k].pubkey@, s1[k].leaf@));
            lemma_covered_lookup(x, b0, b1, idx, hash_ty, s1[k].pubkey@, s1[k].leaf@);
        }
    }
    lemma_count_all_rows(s1, pk);
    lemma_signature_count(x, b0, b1, idx, hash_ty, 0);
    // the entry's two distinct leaves form a set of size two
    assert(ls.drop_last().drop_last() =~= Seq::<Vec<u8>>::empty());
    assert(distinct_leaves(ls.drop_last().drop_last()) == Set::<Seq<u8>>::empty());
    assert(ls.drop_last().last() == ls[0]);
    assert(distinct_leaves(ls.drop_last()) == Set::<Seq<u8>>::empty().insert(ls[0]@));
    assert(distinct_leaves(ls) == Set::<Seq<u8>>::empty().insert(ls[0]@).insert(ls[1]@));
    assert(!Set::<Seq<u8>>::empty().contains(ls[0]@));
    assert(!Set::<Seq<u8>>::empty().insert(ls[0]@).contains(ls[1]@));
    assert(distinct_leaves(ls).len() == 2);
}

/// Idempotent re-signing: signing the same input a second time, with the
/// bundle otherwise unchanged, overwrites rather than duplicates — the
/// script-path signature table and the key-path signature afterwards hold,
/// value for value, exactly what they held after the first signing.
pub proof fn lemma_resign_idempotent(
    x: Seq<u8>,
    b0: PsbtBundle,
    b1: PsbtBundle,
    b2: PsbtBundle,
    idx: int,
    hash_ty: u8,
)
    requires
        b0.wf(),
        sign_outcome(x, b0, b1, idx, hash_ty, Result::Ok(())),
        sign_outcome(x, b1, b2, idx, hash_ty, Result::Ok(())),
    ensures
        forall|pk: Seq<u8>, l: Seq<u8>|
            #[trigger] find_sig(b2.inputs@[idx].tap_script_sigs@, pk, l) == find_sig(
                b1.inputs@[idx].tap_script_sigs@,
                pk,
                l,
            ),
        merkle_view(b2.inputs@[idx].tap_merkle_root) == merkle_view(
            b1.inputs@[idx].tap_merkle_root,
        ),
        b1.inputs@[idx].tap_key_sig is Some && b2.inputs@[idx].tap_key_sig is Some
            ==> b2.inputs@[idx].tap_key_sig.unwrap()@ == b1.inputs@[idx].tap_key_sig.unwrap()@,
        b2.inputs@[idx].tap_key_sig is Some <==> b1.inputs@[idx].tap_key_sig is Some,
{
    let r0 = b0.inputs@[idx];
    let r1 = b1.inputs@[idx];
    let r2 = b2.inputs@[idx];
    let table = r0.tap_key_origins@;
    let pv0 = prevouts_view(b0.inputs@);
    let pv1 = prevouts_view(b1.inputs@);
    assert(pv1 =~= pv0) by {
        assert(forall|j: int|
            0 <= j < b0.inputs@.len() ==> (#[trigger] b1.inputs@[j]).witness_utxo
                == b0.inputs@[j].witness_utxo);
    }
    assert(r1.tap_key_origins@ == table);
    assert(keypath_pubkey_matches(x, r1) == keypath_pubkey_matches(x, r0));
    if keypath_pubkey_matches(x, r0) {
        assert(keypath_sig_value(x, b1.tx@, pv1, idx, hash_ty, r1) == keypath_sig_value(
            x,
            b0.tx@,
            pv0,
            idx,
            hash_ty,
            r0,
        ));
        assert(r1.tap_key_sig matches Some(s1) && s1@ == keypath_sig_value(
            x,
            b0.tx@,
            pv0,
            idx,
            hash_ty,
            r0,
        ).unwrap());
        assert(r2.tap_key_sig matches Some(s2) && s2@ == keypath_sig_value(
            x,
            b1.tx@,
            pv1,
            idx,
            hash_ty,
            r1,
        ).unwrap());
    } else {
        assert(r1.tap_key_sig == r0.tap_key_sig);
        assert(r2.tap_key_sig == r1.tap_key_sig);
    }
    assert forall|pk: Seq<u8>, l: Seq<u8>|
        #[trigger] find_sig(r2.tap_script_sigs@, pk, l) == find_sig(
        r1.tap_script_sigs@,
        pk,
        l,
    ) by {
        if covers(table, x, pk, l) {
            let (a, b) = choose|a: int, b: int|
                0 <= a < table.len() && 0 <= b < table[a].leaves@.len() && entry_matches(
                    x,
                    table[a],
                ) && table[a].pubkey@ == pk && (#[trigger] table[a].leaves@[b])@ == l;
            assert(find_sig(r1.tap_script_sigs@, table[a].pubkey@, (table[a].leaves@[b])@)
                == leaf_sig_value(x, b0.tx@, pv0, idx, hash_ty, table[a], table[a].leaves@[b]@));
            assert(find_sig(r2.tap_script_sigs@, table[a].pubkey@, (table[a].leaves@[b])@)
                == leaf_sig_value(x, b1.tx@, pv1, idx, hash_ty, table[a], table[a].leaves@[b]@));
        } else {
            assert(find_sig(r2.tap_script_sigs@, pk, l) == find_sig(r1.tap_script_sigs@, pk, l));
        }
    }
}

} // verus!
