//! Trusted boundary to the cryptographic routines of the `bitcoin` crate.
//!
//! Every function here is a thin wrapper around one outside routine. Each
//! result that is a pure function of the arguments is given a name (an
//! uninterpreted spec function); the verified signing logic is stated and
//! proved over those names.

use vstd::prelude::*;

use crate::model::TxOutRecord;
use bitcoin::consensus::deserialize;
use bitcoin::hashes::Hash as ByteHash;
use bitcoin::secp256k1::{KeyPair, Message, Scalar, Secp256k1};
use bitcoin::util::bip32::{ChildNumber, ExtendedPrivKey};
use bitcoin::util::sighash::{Prevouts, SighashCache};
use bitcoin::util::taproot::{TapBranchHash, TapLeafHash, TapTweakHash};
use bitcoin::{SchnorrSighashType, Script, Transaction, TxOut, XOnlyPublicKey};

verus! {

/// Whether a byte string is a well-formed serialized extended private key.
pub uninterp spec fn xpriv_ok(x: Seq<u8>) -> bool;

/// The fingerprint (4 bytes) of a well-formed extended private key.
pub uninterp spec fn xpriv_fingerprint(x: Seq<u8>) -> Seq<u8>;

/// The 32-byte secret of the key pair belonging to an extended private key
/// itself (the empty derivation path).
pub uninterp spec fn xpriv_root(x: Seq<u8>) -> Seq<u8>;

/// The 32-byte secret of the child derived along `path`.
pub uninterp spec fn xpriv_derive(x: Seq<u8>, path: Seq<u32>) -> Seq<u8>;

/// Whether 32 bytes are a usable secret key (non-zero and below the group
/// order).
pub uninterp spec fn secret_ok(s: Seq<u8>) -> bool;

/// The x-only public key (32 bytes) of a usable secret key.
pub uninterp spec fn xonly_of(s: Seq<u8>) -> Seq<u8>;

/// The secret of the key pair tweaked by the taproot commitment to
/// `merkle_root`, or `None` where the commitment bytes have the wrong length
/// or the tweak leaves the group.
pub uninterp spec fn tap_tweaked(s: Seq<u8>, merkle_root: Option<Seq<u8>>) -> Option<Seq<u8>>;

/// The taproot signature digest (32 bytes) of input `idx` of the serialized
/// transaction `tx` spending `prevouts`, under sighash flag `hash_ty` and an
/// optional (leaf identifier, code-separator position) script context;
/// `None` where the transaction bytes do not deserialize, the flag or a leaf
/// identifier is invalid, or the digest routine refuses the data.
pub uninterp spec fn taproot_sighash(
    tx: Seq<u8>,
    prevouts: Seq<(u64, Seq<u8>)>,
    idx: int,
    hash_ty: u8,
    leaf: Option<(Seq<u8>, u32)>,
) -> Option<Seq<u8>>;

/// The deterministic (no auxiliary randomness) Schnorr signature, 64 bytes,
/// of the 32-byte message `m` under the secret key `s`.
pub uninterp spec fn schnorr_sig(s: Seq<u8>, m: Seq<u8>) -> Seq<u8>;

/// Relies on `ExtendedPrivKey::decode`: whether the bytes decode as a
/// serialized extended private key, a pure function of the bytes.
#[verifier::external_body]
pub(crate) fn xpriv_check(x: &Vec<u8>) -> (r: bool)
    ensures
        r == xpriv_ok(x@),
{
    ExtendedPrivKey::decode(x).is_ok()
}

/// Relies on `ExtendedPrivKey::fingerprint`: the first four bytes of the
/// hash of the master's public key, a pure function of the key.
#[verifier::external_body]
pub(crate) fn xpriv_fingerprint_bytes(x: &Vec<u8>) -> (r: Vec<u8>)
    requires
        xpriv_ok(x@),
    ensures
        r@ == xpriv_fingerprint(x@),
        r@.len() == 4,
{
    let k = ExtendedPrivKey::decode(x).unwrap();
    k.fingerprint(&Secp256k1::new()).to_bytes().to_vec()
}

/// Relies on `ExtendedPrivKey::to_keypair`: the key pair of the extended
/// key's own secret, always a usable secret key.
#[verifier::external_body]
pub(crate) fn xpriv_root_secret(x: &Vec<u8>) -> (r: Vec<u8>)
    requires
        xpriv_ok(x@),
    ensures
        r@ == xpriv_root(x@),
        r@.len() == 32,
        secret_ok(r@),
{
    let k = ExtendedPrivKey::decode(x).unwrap();
    let kp = k.to_keypair(&Secp256k1::new());
    kp.secret_bytes().to_vec()
}

/// Relies on `ExtendedPrivKey::derive_priv`: deterministic child derivation
/// along a path; the result is a usable secret key. In this dependency
/// `ckd_priv` never constructs an error: its defined-invalid intermediate
/// values (astronomically rare) abort the process instead of failing, so a
/// normal return always carries the derived secret, and a derivation
/// failure cannot be surfaced here.
#[verifier::external_body]
pub(crate) fn xpriv_derive_secret(x: &Vec<u8>, path: &Vec<u32>) -> (r: Vec<u8>)
    requires
        xpriv_ok(x@),
    ensures
        r@ == xpriv_derive(x@, path@),
        r@.len() == 32,
        secret_ok(r@),
{
    let k = ExtendedPrivKey::decode(x).unwrap();
    let secp = Secp256k1::new();
    let steps: Vec<ChildNumber> = path.iter().map(|n| ChildNumber::from(*n)).collect();
    k.derive_priv(&secp, &steps).unwrap().to_keypair(&secp).secret_bytes().to_vec()
}

/// Relies on `XOnlyPublicKey::from_keypair`: the x-only public key of a
/// usable secret key.
#[verifier::external_body]
pub(crate) fn xonly_pubkey(s: &Vec<u8>) -> (r: Vec<u8>)
    requires
        secret_ok(s@),
    ensures
        r@ == xonly_of(s@),
        r@.len() == 32,
{
    let secp = Secp256k1::new();
    let kp = KeyPair::from_seckey_slice(&secp, s).unwrap();
    XOnlyPublicKey::from_keypair(&kp).0.serialize().to_vec()
}

/// Relies on `TapTweak::tap_tweak` for `KeyPair`: the key pair tweaked by
/// the commitment hash of its own public key and the merkle root; written
/// out with `Scalar::from_be_bytes` and `add_xonly_tweak` so both an
/// out-of-range tweak hash and an out-of-range tweak result surface as
/// `None` rather than a panic. The tweaked secret is again usable.
#[verifier::external_body]
pub(crate) fn tap_tweak_secret(s: &Vec<u8>, merkle_root: Option<&Vec<u8>>) -> (r: Option<Vec<u8>>)
    requires
        secret_ok(s@),
    ensures
        r is Some == tap_tweaked(s@, spec_merkle(merkle_root)) is Some,
        r matches Some(t) ==> {
            &&& t@ == tap_tweaked(s@, spec_merkle(merkle_root)).unwrap()
            &&& t@.len() == 32
            &&& secret_ok(t@)
        },
{
    let secp = Secp256k1::new();
    let kp = KeyPair::from_seckey_slice(&secp, s).unwrap();
    let mr = match merkle_root {
        Some(m) => match TapBranchHash::from_slice(m) { Ok(h) => Some(h), Err(_) => return None },
        None => None,
    };
    let (pk, _) = XOnlyPublicKey::from_keypair(&kp);
    let tweak = Scalar::from_be_bytes(TapTweakHash::from_key_and_tweak(pk, mr).into_inner()).ok()?;
    match kp.add_xonly_tweak(&secp, &tweak) {
        Ok(t) => Some(t.secret_bytes().to_vec()),
        Err(_) => None,
    }
}

/// The abstract value of an optional commitment argument.
pub open spec fn spec_merkle(merkle_root: Option<&Vec<u8>>) -> Option<Seq<u8>> {
    match merkle_root {
        Some(m) => Some(m@),
        None => None,
    }
}

/// The abstract value of an optional script-leaf context argument.
pub open spec fn spec_leaf(leaf: Option<(&Vec<u8>, u32)>) -> Option<(Seq<u8>, u32)> {
    match leaf {
        Some((l, cs)) => Some((l@, cs)),
        None => None,
    }
}

/// Relies on `SighashCache::taproot_signature_hash`: the standardized
/// taproot signature digest, a pure function of the serialized transaction,
/// the spent outputs, the input index, the sighash flag and the script-leaf
/// context; every failure of the routine surfaces as `None`.
#[verifier::external_body]
pub(crate) fn compute_taproot_sighash(
    tx: &Vec<u8>,
    prevouts: &Vec<TxOutRecord>,
    idx: usize,
    hash_ty: u8,
    leaf: Option<(&Vec<u8>, u32)>,
) -> (r: Option<Vec<u8>>)
    ensures
        r is Some == taproot_sighash(tx@, prevouts_parts(prevouts@), idx as int, hash_ty, spec_leaf(leaf)) is Some,
        r matches Some(v) ==> v@ == taproot_sighash(tx@, prevouts_parts(prevouts@), idx as int, hash_ty, spec_leaf(leaf)).unwrap() && v@.len() == 32,
{
    let t: Transaction = deserialize(tx).ok()?;
    let ht = SchnorrSighashType::from_consensus_u8(hash_ty).ok()?;
    let lc = match leaf {
        Some((l, cs)) => Some((TapLeafHash::from_slice(l).ok()?, cs)),
        None => None,
    };
    let outs: Vec<TxOut> = prevouts.iter().map(
        |p| TxOut { value: p.value, script_pubkey: p.script_pubkey.clone().into() }).collect();
    match SighashCache::new(&t).taproot_signature_hash(idx, &Prevouts::All(&outs), None, lc, ht) {
        Ok(h) => Some(h.into_inner().to_vec()),
        Err(_) => None,
    }
}

/// The abstract values of a list of spent outputs.
pub open spec fn prevouts_parts(p: Seq<TxOutRecord>) -> Seq<(u64, Seq<u8>)> {
    p.map_values(|r: TxOutRecord| r@)
}

/// Relies on `Secp256k1::sign_schnorr_no_aux_rand`: the deterministic
/// Schnorr signature over a 32-byte digest, a pure function of the secret
/// key and the digest.
#[verifier::external_body]
pub(crate) fn schnorr_sign(s: &Vec<u8>, msg: &Vec<u8>) -> (r: Vec<u8>)
    requires
        secret_ok(s@),
        msg@.len() == 32,
    ensures
        r@ == schnorr_sig(s@, msg@),
        r@.len() == 64,
{
    let secp = Secp256k1::new();
    let kp = KeyPair::from_seckey_slice(&secp, s).unwrap();
    let m = Message::from_slice(msg).unwrap();
    secp.sign_schnorr_no_aux_rand(&m, &kp).as_ref().to_vec()
}

} // verus!
