use taproot_signer::model::{
    InputRecord, KeyOrigin, LeafSigEntry, PsbtBundle, SigData, SignerEntry, TxOutRecord,
};
use taproot_signer::signer::SigningKey;
use taproot_signer::PSBTSigningError;

use bitcoin::hashes::Hash as ByteHash;
use bitcoin::schnorr::TapTweak;
use bitcoin::secp256k1::{Message, Secp256k1};
use bitcoin::util::bip32::{ChildNumber, ExtendedPrivKey};
use bitcoin::util::sighash::{Prevouts, SighashCache};
use bitcoin::util::taproot::{TapBranchHash, TapLeafHash};
use bitcoin::{
    OutPoint, PackedLockTime, SchnorrSighashType, Script, Sequence, Transaction, TxIn, TxOut,
    Witness, XOnlyPublicKey,
};

fn xpriv_bytes() -> Vec<u8> {
    let mut b = vec![0x04u8, 0x35, 0x83, 0x94];
    b.push(0);
    b.extend_from_slice(&[0u8; 4]);
    b.extend_from_slice(&[0u8; 4]);
    b.extend_from_slice(&[7u8; 32]);
    b.push(0);
    b.extend_from_slice(&[1u8; 32]);
    b
}

fn test_key() -> SigningKey {
    SigningKey::from_bytes(xpriv_bytes()).unwrap()
}

fn decoded() -> ExtendedPrivKey {
    ExtendedPrivKey::decode(&xpriv_bytes()).unwrap()
}

fn derived_xonly(path: &[u32]) -> Vec<u8> {
    let secp = Secp256k1::new();
    let steps: Vec<ChildNumber> = path.iter().map(|n| ChildNumber::from(*n)).collect();
    let kp = decoded().derive_priv(&secp, &steps).unwrap().to_keypair(&secp);
    XOnlyPublicKey::from_keypair(&kp).0.serialize().to_vec()
}

fn root_tweaked_xonly(merkle: Option<[u8; 32]>) -> Vec<u8> {
    let secp = Secp256k1::new();
    let kp = decoded().to_keypair(&secp);
    let mr = merkle.map(|m| TapBranchHash::from_slice(&m).unwrap());
    let tweaked = kp.tap_tweak(&secp, mr).into_inner();
    XOnlyPublicKey::from_keypair(&tweaked).0.serialize().to_vec()
}

fn tx_bytes() -> Vec<u8> {
    let tx = Transaction {
        version: 2,
        lock_time: PackedLockTime(0),
        input: vec![TxIn {
            previous_output: OutPoint::null(),
            script_sig: Script::new(),
            sequence: Sequence(0xffffffff),
            witness: Witness::new(),
        }],
        output: vec![TxOut { value: 40_000, script_pubkey: Script::new() }],
    };
    bitcoin::consensus::serialize(&tx)
}

fn utxo() -> TxOutRecord {
    TxOutRecord { value: 50_000, script_pubkey: vec![] }
}

fn entry(path: Vec<u32>, pubkey: Vec<u8>, leaves: Vec<Vec<u8>>) -> SignerEntry {
    SignerEntry {
        pubkey,
        leaves,
        origin: KeyOrigin { fingerprint: test_key().fingerprint(), path },
    }
}

fn record(
    internal: Option<Vec<u8>>,
    merkle: Option<Vec<u8>>,
    table: Vec<SignerEntry>,
) -> InputRecord {
    InputRecord {
        witness_utxo: Some(utxo()),
        tap_internal_key: internal,
        tap_merkle_root: merkle,
        tap_key_origins: table,
        tap_key_sig: None,
        tap_script_sigs: vec![],
    }
}

fn bundle(inputs: Vec<InputRecord>) -> PsbtBundle {
    PsbtBundle { tx: tx_bytes(), inputs }
}

fn verify_leaf_sig(sig: &[u8], leaf: &[u8], pubkey: &[u8], hash_ty: u8) -> bool {
    let secp = Secp256k1::new();
    let tx: Transaction = bitcoin::consensus::deserialize(&tx_bytes()).unwrap();
    let outs = vec![TxOut { value: 50_000, script_pubkey: Script::new() }];
    let mut cache = SighashCache::new(&tx);
    let lh = TapLeafHash::from_slice(leaf).unwrap();
    let ht = SchnorrSighashType::from_consensus_u8(hash_ty).unwrap();
    let digest = cache
        .taproot_signature_hash(0, &Prevouts::All(&outs), None, Some((lh, 0xffffffff)), ht)
        .unwrap();
    let msg = Message::from_slice(&digest.into_inner()).unwrap();
    let s = bitcoin::secp256k1::schnorr::Signature::from_slice(sig).unwrap();
    let pk = XOnlyPublicKey::from_slice(pubkey).unwrap();
    secp.verify_schnorr(&s, &msg, &pk).is_ok()
}

#[test]
fn from_bytes_accepts_only_wellformed_keys() {
    assert!(SigningKey::from_bytes(vec![1, 2, 3]).is_none());
    assert!(SigningKey::from_bytes(xpriv_bytes()).is_some());
}

#[test]
fn fingerprint_matches_bip32() {
    let secp = Secp256k1::new();
    let expected = decoded().fingerprint(&secp).to_bytes().to_vec();
    assert_eq!(test_key().fingerprint(), expected);
}

#[test]
fn missing_prevout_reports_index_and_leaves_bundle_unchanged() {
    let key = test_key();
    let mut inputs = vec![record(None, None, vec![]), record(None, None, vec![])];
    inputs[1].witness_utxo = None;
    let b = bundle(inputs);
    let before = b.clone();
    match key.sign_psbt_input(b, 0, 1) {
        Ok(_) => panic!("expected an error"),
        Err((back, e)) => {
            assert!(matches!(e, PSBTSigningError::NoUTXOAtIndex(1)));
            assert!(back == before);
        },
    }
}

#[test]
fn out_of_range_index_reports_and_leaves_bundle_unchanged() {
    let key = test_key();
    let b = bundle(vec![record(None, None, vec![])]);
    let before = b.clone();
    match key.sign_psbt_input(b, 5, 1) {
        Ok(_) => panic!("expected an error"),
        Err((back, e)) => {
            assert!(matches!(e, PSBTSigningError::NoInputAtIndex(5)));
            assert!(back == before);
        },
    }
}

#[test]
fn undecodable_transaction_is_a_sighash_failure() {
    let key = test_key();
    let internal = root_tweaked_xonly(None);
    let b = PsbtBundle {
        tx: vec![0xde, 0xad],
        inputs: vec![record(Some(internal), None, vec![])],
    };
    let before = b.clone();
    match key.sign_psbt_input(b, 0, 1) {
        Ok(_) => panic!("expected an error"),
        Err((back, e)) => {
            assert!(matches!(e, PSBTSigningError::SighashFailure));
            assert!(back == before);
        },
    }
}

#[test]
fn invalid_sighash_flag_is_a_sighash_failure() {
    let key = test_key();
    let leaf = vec![0xaau8; 32];
    let e = entry(vec![1], derived_xonly(&[1]), vec![leaf]);
    let b = bundle(vec![record(None, None, vec![e])]);
    match key.sign_psbt_input(b, 0, 0x05) {
        Ok(_) => panic!("expected an error"),
        Err((_, err)) => assert!(matches!(err, PSBTSigningError::SighashFailure)),
    }
}

#[test]
fn mismatched_recorded_key_gets_no_signature_and_no_error() {
    let key = test_key();
    // fingerprint is ours, but the recorded key is the child of another path
    let e = entry(vec![1], derived_xonly(&[2]), vec![vec![0xaau8; 32]]);
    let b = bundle(vec![record(None, None, vec![e])]);
    let signed = key.sign_psbt_input(b, 0, 1).unwrap();
    assert!(signed.inputs[0].tap_script_sigs.is_empty());
    assert!(signed.inputs[0].tap_key_sig.is_none());
}

#[test]
fn foreign_fingerprint_is_skipped() {
    let key = test_key();
    let mut e = entry(vec![1], derived_xonly(&[1]), vec![vec![0xaau8; 32]]);
    e.origin.fingerprint = vec![9, 9, 9, 9];
    let b = bundle(vec![record(None, None, vec![e])]);
    let signed = key.sign_psbt_input(b, 0, 1).unwrap();
    assert!(signed.inputs[0].tap_script_sigs.is_empty());
}

#[test]
fn keypath_signature_iff_commitment_matches() {
    let key = test_key();
    let commitment = [5u8; 32];
    let internal = root_tweaked_xonly(Some(commitment));

    let b = bundle(vec![record(Some(internal.clone()), Some(commitment.to_vec()), vec![])]);
    let signed = key.sign_psbt_input(b, 0, 1).unwrap();
    assert!(signed.inputs[0].tap_key_sig.is_some());

    // flipping one bit of the commitment must omit the signature
    let mut flipped = commitment;
    flipped[0] ^= 1;
    let b2 = bundle(vec![record(Some(internal), Some(flipped.to_vec()), vec![])]);
    let signed2 = key.sign_psbt_input(b2, 0, 1).unwrap();
    assert!(signed2.inputs[0].tap_key_sig.is_none());
}

#[test]
fn resigning_overwrites_instead_of_duplicating() {
    let key = test_key();
    let la = vec![0xaau8; 32];
    let lb = vec![0xbbu8; 32];
    let e = entry(vec![1], derived_xonly(&[1]), vec![la, lb]);
    let b = bundle(vec![record(None, None, vec![e])]);
    let once = key.sign_psbt_input(b, 0, 1).unwrap();
    assert_eq!(once.inputs[0].tap_script_sigs.len(), 2);
    let twice = key.sign_psbt_input(once.clone(), 0, 1).unwrap();
    assert_eq!(twice.inputs[0].tap_script_sigs.len(), 2);
    for s in &once.inputs[0].tap_script_sigs {
        let again = twice.inputs[0]
            .tap_script_sigs
            .iter()
            .find(|t| t.pubkey == s.pubkey && t.leaf == s.leaf)
            .unwrap();
        assert_eq!(again.sig.sig, s.sig.sig);
        assert_eq!(again.sig.hash_ty, s.sig.hash_ty);
    }
}

#[test]
fn keypath_and_tapleaf_signatures_differ_for_the_same_key() {
    let key = test_key();
    // the empty path re-derives the root key itself
    let e = entry(vec![], derived_xonly(&[]), vec![vec![0xccu8; 32]]);
    let internal = root_tweaked_xonly(None);
    let b = bundle(vec![record(Some(internal), None, vec![e])]);
    let signed = key.sign_psbt_input(b, 0, 1).unwrap();
    let keypath = signed.inputs[0].tap_key_sig.as_ref().unwrap();
    assert_eq!(signed.inputs[0].tap_script_sigs.len(), 1);
    let leaf_sig = &signed.inputs[0].tap_script_sigs[0];
    assert_ne!(keypath.sig, leaf_sig.sig.sig);
}

#[test]
fn two_leaf_scenario_yields_two_verifiable_leaf_signatures() {
    let key = test_key();
    let la = vec![0x11u8; 32];
    let lb = vec![0x22u8; 32];
    let pubkey = derived_xonly(&[1]);
    let e = entry(vec![1], pubkey.clone(), vec![la.clone(), lb.clone()]);
    // internal key deliberately set to a different key
    let internal = derived_xonly(&[9]);
    let b = bundle(vec![record(Some(internal), None, vec![e])]);
    let signed = key.sign_psbt_input(b, 0, 1).unwrap();

    assert!(signed.inputs[0].tap_key_sig.is_none());
    let sigs = &signed.inputs[0].tap_script_sigs;
    assert_eq!(sigs.len(), 2);
    for leaf in [&la, &lb] {
        let s = sigs.iter().find(|t| &t.leaf == leaf).unwrap();
        assert_eq!(s.pubkey, pubkey);
        assert_eq!(s.sig.hash_ty, 1);
        assert!(verify_leaf_sig(&s.sig.sig, leaf, &pubkey, 1));
    }
}

#[test]
fn matching_keys_filters_by_fingerprint_and_rederived_key() {
    let key = test_key();
    let secp = Secp256k1::new();
    let good = entry(vec![1], derived_xonly(&[1]), vec![]);
    let mut foreign = entry(vec![1], derived_xonly(&[1]), vec![]);
    foreign.origin.fingerprint = vec![9, 9, 9, 9];
    let wrong_key = entry(vec![3], derived_xonly(&[4]), vec![]);
    let table = vec![foreign, good, wrong_key];
    let ms = key.compute_matching_keys(&table);
    assert_eq!(ms.len(), 1);
    assert_eq!(ms[0].entry, 1);
    let expected = decoded()
        .derive_priv(&secp, &vec![ChildNumber::from(1u32)])
        .unwrap()
        .to_keypair(&secp)
        .secret_bytes()
        .to_vec();
    assert_eq!(ms[0].secret, expected);
}

#[test]
fn in_place_signing_matches_by_value_signing() {
    let key = test_key();
    let e = entry(vec![1], derived_xonly(&[1]), vec![vec![0x33u8; 32]]);
    let b = bundle(vec![record(None, None, vec![e])]);
    let mut in_place = b.clone();
    key.sign_psbt_mut(&mut in_place, 1).unwrap();
    let by_value = key.sign_psbt(b, 1).unwrap();
    assert!(in_place == by_value);
}

#[test]
fn unrelated_existing_signatures_are_kept() {
    let key = test_key();
    let e = entry(vec![1], derived_xonly(&[1]), vec![vec![0x44u8; 32]]);
    let mut rec = record(None, None, vec![e]);
    rec.tap_script_sigs = vec![LeafSigEntry {
        pubkey: vec![9u8; 32],
        leaf: vec![8u8; 32],
        sig: SigData { sig: vec![7u8; 64], hash_ty: 1 },
    }];
    let b = bundle(vec![rec]);
    let signed = key.sign_psbt_input(b, 0, 1).unwrap();
    let sigs = &signed.inputs[0].tap_script_sigs;
    assert_eq!(sigs.len(), 2);
    assert!(sigs.iter().any(|t| t.pubkey == vec![9u8; 32] && t.sig.sig == vec![7u8; 64]));
}

#[test]
fn existing_signature_for_same_pair_is_overwritten() {
    let key = test_key();
    let leaf = vec![0x55u8; 32];
    let pk = derived_xonly(&[1]);
    let e = entry(vec![1], pk.clone(), vec![leaf.clone()]);
    let mut rec = record(None, None, vec![e]);
    rec.tap_script_sigs = vec![LeafSigEntry {
        pubkey: pk.clone(),
        leaf: leaf.clone(),
        sig: SigData { sig: vec![7u8; 64], hash_ty: 1 },
    }];
    let b = bundle(vec![rec]);
    let signed = key.sign_psbt_input(b, 0, 1).unwrap();
    let sigs = &signed.inputs[0].tap_script_sigs;
    assert_eq!(sigs.len(), 1);
    assert_ne!(sigs[0].sig.sig, vec![7u8; 64]);
    assert!(verify_leaf_sig(&sigs[0].sig.sig, &leaf, &pk, 1));
}

#[test]
fn error_messages_name_the_failure() {
    assert!(PSBTSigningError::NoUTXOAtIndex(3).message().contains("spent output"));
    assert!(PSBTSigningError::NoInputAtIndex(3).message().contains("index"));
    assert!(PSBTSigningError::SighashFailure.message().contains("digest"));
}
