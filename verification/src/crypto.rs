//! Key derivation from a password, and sealing with AES-256-GCM.
//!
//! The key is drawn byte by byte from a PCG generator seeded with the
//! password through `rand_seeder`; the archive is sealed with a fresh random
//! nonce, which is appended to the ciphertext.

use vstd::prelude::*;
use vstd::slice::slice_subrange;
use vstd::string::StringSliceAdditionalSpecFns;
use crate::error::{CliError, CliErrorView};
use aes_gcm::aead::{Aead, OsRng};
use aes_gcm::{AeadCore, Aes256Gcm, KeyInit};
use rand::Rng;
use rand_pcg::Lcg128Xsl64;
use rand_seeder::Seeder;

verus! {

/// The length of a key, in bytes.
pub const KEY_LENGTH: usize = 32;

/// The length of a nonce, in bytes.
pub const NONCE_LENGTH: usize = 12;

/// The longest message that AES-GCM seals (`P_MAX` of the `aes-gcm` crate).
pub const MAX_MESSAGE_LENGTH: u64 = 0x10_0000_0000;

#[verifier::external_type_specification]
#[verifier::external_body]
pub struct ExLcg128Xsl64(Lcg128Xsl64);

/// The PCG generator that `rand_seeder` makes from a seed.
pub uninterp spec fn seeded_generator(seed: Seq<u8>) -> Lcg128Xsl64;

/// The byte that `Rng::gen::<u8>` draws from a generator, and the state of
/// the generator after the draw.
pub uninterp spec fn generator_next_byte(g: Lcg128Xsl64) -> (u8, Lcg128Xsl64);

/// Calls `Seeder::from(seed).make_rng()` of `rand_seeder`, which hashes the
/// seed with a portable SipHash and seeds a `Pcg64` from it. The result is
/// only named: it is a function of the seed.
#[verifier::external_body]
fn seed_generator(seed: &[u8]) -> (g: Lcg128Xsl64)
    ensures
        g == seeded_generator(seed@),
{
    Seeder::from(seed).make_rng()
}

/// Calls `Rng::gen::<u8>` of `rand` on a `Pcg64`. The byte and the next
/// state are only named: they are a function of the generator's state.
#[verifier::external_body]
fn draw_byte(g: &mut Lcg128Xsl64) -> (b: u8)
    ensures
        (b, *final(g)) == generator_next_byte(*old(g)),
{
    g.gen::<u8>()
}

/// The state of generator `g` after `n` draws.
pub open spec fn generator_after(g: Lcg128Xsl64, n: nat) -> Lcg128Xsl64
    decreases n,
{
    if n == 0 {
        g
    } else {
        generator_next_byte(generator_after(g, (n - 1) as nat)).1
    }
}

/// The first `n` bytes drawn from generator `g`.
pub open spec fn generator_bytes(g: Lcg128Xsl64, n: nat) -> Seq<u8>
    decreases n,
{
    if n == 0 {
        Seq::empty()
    } else {
        generator_bytes(g, (n - 1) as nat).push(
            generator_next_byte(generator_after(g, (n - 1) as nat)).0,
        )
    }
}

/// The key of a password given as its bytes: as many bytes drawn from the
/// generator seeded with the password as the password has, then zeros.
pub open spec fn password_key(pw: Seq<u8>) -> Seq<u8> {
    generator_bytes(seeded_generator(pw), pw.len()) + Seq::new(
        (KEY_LENGTH - pw.len()) as nat,
        |i: int| 0u8,
    )
}

/// The `i`-th byte drawn from a generator is the one drawn from its state
/// after `i` draws.
pub proof fn lemma_generator_bytes(g: Lcg128Xsl64, n: nat)
    ensures
        generator_bytes(g, n).len() == n,
        forall|i: int|
            0 <= i < n ==> #[trigger] generator_bytes(g, n)[i] == generator_next_byte(
                generator_after(g, i as nat),
            ).0,
    decreases n,
{
    if n > 0 {
        lemma_generator_bytes(g, (n - 1) as nat);
    }
}

/// The key of a password is 32 bytes: its `i`-th byte, for `i` below the
/// length of the password, is the `i`-th byte drawn from the generator that
/// `rand_seeder` seeds with the whole password; the bytes after those are
/// zero.
pub proof fn lemma_password_key(pw: Seq<u8>)
    requires
        pw.len() <= KEY_LENGTH,
    ensures
        password_key(pw).len() == KEY_LENGTH,
        forall|i: int|
            0 <= i < pw.len() ==> #[trigger] password_key(pw)[i] == generator_next_byte(
                generator_after(seeded_generator(pw), i as nat),
            ).0,
        forall|i: int| pw.len() <= i < KEY_LENGTH ==> #[trigger] password_key(pw)[i] == 0u8,
{
    lemma_generator_bytes(seeded_generator(pw), pw.len());
}

/// The key of a password that is at most as long as a key.
pub fn generate_key_from_password(pw: &str) -> (key: [u8; KEY_LENGTH])
    requires
        pw.spec_bytes().len() <= KEY_LENGTH,
    ensures
        key@ == password_key(pw.spec_bytes()),
        forall|i: int|
            0 <= i < pw.spec_bytes().len() ==> #[trigger] key@[i] == generator_next_byte(
                generator_after(seeded_generator(pw.spec_bytes()), i as nat),
            ).0,
        forall|i: int| pw.spec_bytes().len() <= i < KEY_LENGTH ==> #[trigger] key@[i] == 0u8,
{
    let pw = pw.as_bytes();
    let mut ret = [0u8; KEY_LENGTH];
    let mut rng = seed_generator(pw);
    let ghost g0 = rng;
    let mut i: usize = 0;
    while i < pw.len()
        invariant
            i <= pw@.len() <= KEY_LENGTH,
            rng == generator_after(g0, i as nat),
            g0 == seeded_generator(pw@),
            ret@.len() == KEY_LENGTH,
            ret@.subrange(0, i as int) == generator_bytes(g0, i as nat),
            forall|j: int| i <= j < KEY_LENGTH ==> ret@[j] == 0u8,
        decreases pw@.len() - i,
    {
        let b = draw_byte(&mut rng);
        ret[i] = b;
        i = i + 1;
        assert(ret@.subrange(0, i as int) =~= generator_bytes(g0, i as nat));
    }
    assert(ret@ =~= password_key(pw@));
    proof {
        lemma_password_key(pw@);
    }
    ret
}

/// The key of a password, or an error when the password is longer than a key.
pub fn key_for_password(pw: &str) -> (r: Result<[u8; KEY_LENGTH], CliError>)
    ensures
        pw.spec_bytes().len() > KEY_LENGTH ==> (r matches Err(e) && e@ == CliErrorView::PasswordTooLong),
        pw.spec_bytes().len() <= KEY_LENGTH ==> (r matches Ok(k) && k@ == password_key(pw.spec_bytes())),
{
    if pw.as_bytes().len() > KEY_LENGTH {
        return Err(CliError::PasswordTooLong);
    }
    Ok(generate_key_from_password(pw))
}


/// The ciphertext with tag that AES-256-GCM makes of `msg` under `key` and
/// `nonce`, with no associated data.
pub uninterp spec fn aes256gcm_seal(key: Seq<u8>, nonce: Seq<u8>, msg: Seq<u8>) -> Seq<u8>;

/// What AES-256-GCM decryption makes of a ciphertext with tag under `key`
/// and `nonce`, with no associated data: the message, or `None` when the tag
/// does not verify.
pub uninterp spec fn aes256gcm_open(key: Seq<u8>, nonce: Seq<u8>, ct: Seq<u8>) -> Option<Seq<u8>>;

/// Calls `Aead::encrypt` of `Aes256Gcm` from `aes-gcm`. The ciphertext is
/// named; the contract states what the crate's source shows: the 16-byte tag
/// is appended to a ciphertext as long as the message, and decryption with
/// the same key and nonce gives the message back. Messages longer than
/// `P_MAX` are refused by the crate, so they are left out.
#[verifier::external_body]
fn aes256gcm_encrypt(key: &[u8; KEY_LENGTH], nonce: &[u8; NONCE_LENGTH], msg: &[u8]) -> (ct: Vec<u8>)
    requires
        msg@.len() <= MAX_MESSAGE_LENGTH,
    ensures
        ct@ == aes256gcm_seal(key@, nonce@, msg@),
        ct@.len() == msg@.len() + 16,
        aes256gcm_open(key@, nonce@, ct@) == Some(msg@),
{
    Aes256Gcm::new(key.into()).encrypt(nonce.into(), msg).unwrap()
}

/// Calls `Aead::decrypt` of `Aes256Gcm` from `aes-gcm`, with the error turned
/// into `None`. The result is named.
#[verifier::external_body]
fn aes256gcm_decrypt(key: &[u8; KEY_LENGTH], nonce: &[u8], ct: &[u8]) -> (m: Option<Vec<u8>>)
    requires
        nonce@.len() == NONCE_LENGTH,
    ensures
        match m {
            Some(v) => aes256gcm_open(key@, nonce@, ct@) == Some(v@),
            None => aes256gcm_open(key@, nonce@, ct@) is None,
        },
{
    Aes256Gcm::new(key.into()).decrypt(nonce.into(), ct).ok()
}

/// Calls `AeadCore::generate_nonce` of `Aes256Gcm` with `OsRng`. The nonce is
/// random: nothing is stated of it beyond its length, which its type gives.
/// It panics only when the operating system gives no randomness.
#[verifier::external_body]
fn random_nonce() -> (n: [u8; NONCE_LENGTH]) {
    Aes256Gcm::generate_nonce(&mut OsRng).into()
}

/// The sealed form of `data`: the AES-256-GCM ciphertext under `key` and
/// `nonce`, followed by the nonce.
pub open spec fn sealed(key: Seq<u8>, nonce: Seq<u8>, data: Seq<u8>) -> Seq<u8> {
    aes256gcm_seal(key, nonce, data) + nonce
}

/// What opening sealed bytes gives: the last twelve bytes are the nonce,
/// the others the ciphertext; a tag that does not verify means a wrong password.
pub open spec fn opened(key: Seq<u8>, data: Seq<u8>) -> Result<Seq<u8>, CliErrorView> {
    let split = data.len() - NONCE_LENGTH;
    match aes256gcm_open(key, data.subrange(split, data.len() as int), data.subrange(0, split)) {
        Some(m) => Ok(m),
        None => Err(CliErrorView::WrongPassword),
    }
}

/// The view of a result that carries bytes.
pub open spec fn bytes_result_view(r: Result<Vec<u8>, CliError>) -> Result<Seq<u8>, CliErrorView> {
    match r {
        Ok(v) => Ok(v@),
        Err(e) => Err(e@),
    }
}

/// Seals `data` under `key` with the given nonce, which is appended.
pub fn seal_with_nonce(key: &[u8; KEY_LENGTH], nonce: &[u8; NONCE_LENGTH], data: &[u8]) -> (r: Vec<u8>)
    requires
        data@.len() <= MAX_MESSAGE_LENGTH,
    ensures
        r@ == sealed(key@, nonce@, data@),
        r@.len() == data@.len() + 16 + NONCE_LENGTH,
        opened(key@, r@) == Ok::<Seq<u8>, CliErrorView>(data@),
{
    let mut ct = aes256gcm_encrypt(key, nonce, data);
    let ghost c = ct@;
    let mut i: usize = 0;
    while i < NONCE_LENGTH
        invariant
            i <= NONCE_LENGTH,
            ct@ == c + nonce@.subrange(0, i as int),
        decreases NONCE_LENGTH - i,
    {
        ct.push(nonce[i]);
        i = i + 1;
        assert(ct@ =~= c + nonce@.subrange(0, i as int));
    }
    assert(nonce@.subrange(0, NONCE_LENGTH as int) =~= nonce@);
    assert(ct@.subrange(ct@.len() - NONCE_LENGTH, ct@.len() as int) =~= nonce@);
    assert(ct@.subrange(0, ct@.len() - NONCE_LENGTH) =~= c);
    ct
}

/// Seals `data` under `key` with a fresh random nonce. Whatever nonce was
/// drawn, opening the result with the same key gives `data` back.
pub fn encrypt(key: &[u8; KEY_LENGTH], data: &[u8]) -> (r: Result<Vec<u8>, CliError>)
    requires
        data@.len() <= MAX_MESSAGE_LENGTH,
    ensures
        r matches Ok(v) && exists|nonce: Seq<u8>|
            nonce.len() == NONCE_LENGTH && v@ == sealed(key@, nonce, data@),
        r matches Ok(v) && v@.len() == data@.len() + 16 + NONCE_LENGTH,
        r matches Ok(v) && opened(key@, v@) == Ok::<Seq<u8>, CliErrorView>(data@),
{
    let nonce = random_nonce();
    let v = seal_with_nonce(key, &nonce, data);
    Ok(v)
}

/// Opens sealed bytes with `key`: fails with a wrong password when the tag
/// does not verify. Bytes shorter than a nonce are left out.
pub fn decrypt(key: &[u8; KEY_LENGTH], data: &[u8]) -> (r: Result<Vec<u8>, CliError>)
    requires
        data@.len() >= NONCE_LENGTH,
    ensures
        bytes_result_view(r) == opened(key@, data@),
{
    let split = data.len() - NONCE_LENGTH;
    let cyphertext = slice_subrange(data, 0, split);
    let nonce = slice_subrange(data, split, data.len());
    match aes256gcm_decrypt(key, nonce, cyphertext) {
        Some(m) => Ok(m),
        None => Err(CliError::WrongPassword),
    }
}

} // verus!
