//! Keys and secrets: AES-256-GCM encryption of the registration challenge,
//! the challenge passphrase, key files' contents, the key store, and the
//! URL-safe base64 form of keys.

use vstd::prelude::*;
use aes_gcm::aead::{Aead, KeyInit};
use base64::Engine;

verus! {

/// The number of bytes of a passphrase.
pub const PASSWORD_LEN: usize = 20;

/// The number of characters a passphrase is drawn from.
pub const CHARSET_LEN: usize = 73;

/// The bytes of a nonce at the front of a ciphertext.
pub const NONCE_LEN: usize = 12;

/// The bytes of the authentication tag that encryption adds.
pub const TAG_LEN: usize = 16;

/// The byte at position `i` of the passphrase alphabet
/// `A-Z a-z 0-9 )(*&^%$#@!~`.
pub open spec fn spec_charset(i: int) -> u8 {
    if i < 26 {
        (65 + i) as u8
    } else if i < 52 {
        (97 + (i - 26)) as u8
    } else if i < 62 {
        (48 + (i - 52)) as u8
    } else {
        let k = i - 62;
        if k == 0 { 41u8 }
        else if k == 1 { 40u8 }
        else if k == 2 { 42u8 }
        else if k == 3 { 38u8 }
        else if k == 4 { 94u8 }
        else if k == 5 { 37u8 }
        else if k == 6 { 36u8 }
        else if k == 7 { 35u8 }
        else if k == 8 { 64u8 }
        else if k == 9 { 33u8 }
        else { 126u8 }
    }
}

fn charset(i: usize) -> (r: u8)
    requires
        i < CHARSET_LEN,
    ensures
        r == spec_charset(i as int),
{
    if i < 26 {
        (65 + i) as u8
    } else if i < 52 {
        (97 + (i - 26)) as u8
    } else if i < 62 {
        (48 + (i - 52)) as u8
    } else {
        let k = i - 62;
        if k == 0 { 41u8 }
        else if k == 1 { 40u8 }
        else if k == 2 { 42u8 }
        else if k == 3 { 38u8 }
        else if k == 4 { 94u8 }
        else if k == 5 { 37u8 }
        else if k == 6 { 36u8 }
        else if k == 7 { 35u8 }
        else if k == 8 { 64u8 }
        else if k == 9 { 33u8 }
        else { 126u8 }
    }
}

/// Random bytes from this value up are not used for a character, so that
/// every character of the alphabet is equally likely (it is three times
/// the alphabet's size).
pub const ACCEPT_BELOW: u8 = 219;

/// The passphrase characters that random bytes turn into: each byte below
/// `ACCEPT_BELOW` picks a character of the alphabet by its remainder; the
/// other bytes are skipped.
pub open spec fn spec_passphrase(raw: Seq<u8>) -> Seq<u8>
    decreases raw.len(),
{
    if raw.len() == 0 {
        Seq::empty()
    } else {
        let rest = spec_passphrase(raw.drop_last());
        if raw.last() < ACCEPT_BELOW {
            rest.push(spec_charset(raw.last() as int % CHARSET_LEN as int))
        } else {
            rest
        }
    }
}

/// Turns random bytes into passphrase characters, skipping the bytes that
/// would make some characters likelier than others.
pub fn passphrase_from_bytes(raw: &[u8]) -> (r: Vec<u8>)
    ensures
        r@ == spec_passphrase(raw@),
{
    let mut out: Vec<u8> = Vec::with_capacity(raw.len());
    let mut i: usize = 0;
    while i < raw.len()
        invariant
            i <= raw@.len(),
            out@ == spec_passphrase(raw@.subrange(0, i as int)),
        decreases raw@.len() - i,
    {
        assert(raw@.subrange(0, i + 1).drop_last() =~= raw@.subrange(0, i as int));
        if raw[i] < ACCEPT_BELOW {
            let c = charset((raw[i] as usize) % CHARSET_LEN);
            out.push(c);
        }
        i += 1;
    }
    assert(raw@.subrange(0, raw@.len() as int) =~= raw@);
    out
}

/// Why a secret could not be made or used.
#[derive(Debug, Clone, Copy, PartialEq, Eq, Structural)]
pub enum SecurityError {
    /// The system's random source failed.
    Random,
    /// The cipher refused the input (too long).
    Cipher,
}

#[verifier::external_type_specification]
#[verifier::external_body]
pub struct ExRandomError(getrandom::Error);

/// Relies on `getrandom::fill`: on success every one of the `n` bytes has
/// been filled from the system's random source.
#[verifier::external_body]
fn random_bytes(n: usize) -> (r: Result<Vec<u8>, getrandom::Error>)
    ensures
        r is Ok ==> r.unwrap()@.len() == n,
{
    let mut v = vec![0u8; n];
    getrandom::fill(&mut v)?;
    Ok(v)
}

/// How many batches of random bytes a passphrase may take.
pub const PASSPHRASE_ROUNDS: usize = 4;

/// The random bytes drawn per batch.
pub const PASSPHRASE_BATCH: usize = 64;

/// A fresh passphrase of `PASSWORD_LEN` characters, each drawn uniformly from
/// the alphabet using the system's random source. Fails when the source
/// fails, or when `PASSPHRASE_ROUNDS` batches did not give enough usable
/// bytes.
pub fn generate_passphrase() -> (r: Result<Vec<u8>, SecurityError>)
    ensures
        r is Err ==> r == Err::<Vec<u8>, SecurityError>(SecurityError::Random),
        r is Ok ==> r.unwrap()@.len() == PASSWORD_LEN && exists|raw: Seq<u8>|
            #[trigger] spec_passphrase(raw).len() >= PASSWORD_LEN && r.unwrap()@ == spec_passphrase(
                raw,
            ).subrange(0, PASSWORD_LEN as int),
{
    let mut raw: Vec<u8> = Vec::new();
    let mut round: usize = 0;
    while round < PASSPHRASE_ROUNDS
        invariant
            round <= PASSPHRASE_ROUNDS,
            raw@.len() == round * PASSPHRASE_BATCH,
        decreases PASSPHRASE_ROUNDS - round,
    {
        let mut batch = match random_bytes(PASSPHRASE_BATCH) {
            Ok(b) => b,
            Err(_) => return Err(SecurityError::Random),
        };
        raw.append(&mut batch);
        round += 1;
        let mut p = passphrase_from_bytes(raw.as_slice());
        if p.len() >= PASSWORD_LEN {
            let ghost all = p@;
            p.truncate(PASSWORD_LEN);
            assert(p@ =~= all.subrange(0, PASSWORD_LEN as int));
            return Ok(p);
        }
    }
    Err(SecurityError::Random)
}

/// What AES-256-GCM decryption gives for a key, a nonce and a ciphertext
/// with its tag: the plaintext, or nothing when the tag does not check out.
pub uninterp spec fn aes_gcm_open(key: Seq<u8>, nonce: Seq<u8>, ciphertext: Seq<u8>) -> Option<Seq<u8>>;

/// Relies on `Aead::encrypt` of `aes_gcm::Aes256Gcm`: the ciphertext is the
/// plaintext's length plus a 16-byte tag, decrypting it with the same key
/// and nonce gives the plaintext back, and it fails only for a plaintext
/// over 2^36 bytes.
#[verifier::external_body]
fn aes_gcm_seal(key: &[u8; 32], nonce: &[u8], data: &[u8]) -> (r: Option<Vec<u8>>)
    requires
        nonce@.len() == NONCE_LEN,
    ensures
        data@.len() <= 0x10_0000_0000 ==> r is Some,
        r is Some ==> r.unwrap()@.len() == data@.len() + TAG_LEN,
        r is Some ==> aes_gcm_open(key@, nonce@, r.unwrap()@) == Some(data@),
{
    let cipher = aes_gcm::Aes256Gcm::new(aes_gcm::Key::<aes_gcm::Aes256Gcm>::from_slice(key));
    cipher.encrypt(aes_gcm::Nonce::from_slice(nonce), data).ok()
}

/// Relies on `Aead::decrypt` of `aes_gcm::Aes256Gcm`.
#[verifier::external_body]
fn aes_gcm_decrypt(key: &[u8; 32], nonce: &[u8], ciphertext: &[u8]) -> (r: Option<Vec<u8>>)
    requires
        nonce@.len() == NONCE_LEN,
    ensures
        match r {
            Some(v) => aes_gcm_open(key@, nonce@, ciphertext@) == Some(v@),
            None => aes_gcm_open(key@, nonce@, ciphertext@) is None,
        },
{
    let cipher = aes_gcm::Aes256Gcm::new(aes_gcm::Key::<aes_gcm::Aes256Gcm>::from_slice(key));
    cipher.decrypt(aes_gcm::Nonce::from_slice(nonce), ciphertext).ok()
}

/// What `decrypt` gives: the nonce is the first 12 bytes, the ciphertext the
/// rest.
pub open spec fn spec_decrypt(key: Seq<u8>, data: Seq<u8>) -> Option<Seq<u8>> {
    if data.len() < NONCE_LEN {
        None
    } else {
        aes_gcm_open(key, data.subrange(0, NONCE_LEN as int), data.subrange(NONCE_LEN as int, data.len() as int))
    }
}

/// Encrypts `data` under `key` with the given 12-byte nonce; the result is
/// the nonce followed by the ciphertext. Decrypting it with the same key
/// gives `data` back.
pub fn encrypt_with_nonce(data: &[u8], key: &[u8; 32], nonce: &[u8]) -> (r: Result<Vec<u8>, SecurityError>)
    requires
        nonce@.len() == NONCE_LEN,
    ensures
        data@.len() <= 0x10_0000_0000 ==> r is Ok,
        r is Err ==> r == Err::<Vec<u8>, SecurityError>(SecurityError::Cipher),
        r is Ok ==> r.unwrap()@.len() == NONCE_LEN + data@.len() + TAG_LEN,
        r is Ok ==> r.unwrap()@.subrange(0, NONCE_LEN as int) == nonce@,
        r is Ok ==> spec_decrypt(key@, r.unwrap()@) == Some(data@),
{
    match aes_gcm_seal(key, nonce, data) {
        None => Err(SecurityError::Cipher),
        Some(sealed) => {
            let mut out: Vec<u8> = Vec::new();
            let mut i: usize = 0;
            while i < nonce.len()
                invariant
                    i <= nonce@.len(),
                    out@ == nonce@.subrange(0, i as int),
                decreases nonce@.len() - i,
            {
                out.push(nonce[i]);
                i += 1;
                assert(out@ =~= nonce@.subrange(0, i as int));
            }
            assert(nonce@.subrange(0, nonce@.len() as int) =~= nonce@);
            let ghost s = sealed@;
            let mut sealed = sealed;
            out.append(&mut sealed);
            assert(out@.subrange(0, NONCE_LEN as int) =~= nonce@);
            assert(out@.subrange(NONCE_LEN as int, out@.len() as int) =~= s);
            Ok(out)
        },
    }
}

/// Encrypts `data` under `key` with a fresh random nonce; the result is the
/// nonce followed by the ciphertext. Decrypting it with the same key gives
/// `data` back.
pub fn encrypt(data: &[u8], key: &[u8; 32]) -> (r: Result<Vec<u8>, SecurityError>)
    ensures
        r is Ok ==> r.unwrap()@.len() == NONCE_LEN + data@.len() + TAG_LEN,
        r is Ok ==> spec_decrypt(key@, r.unwrap()@) == Some(data@),
        r is Err ==> r == Err::<Vec<u8>, SecurityError>(SecurityError::Random) || r == Err::<
            Vec<u8>,
            SecurityError,
        >(SecurityError::Cipher),
        r == Err::<Vec<u8>, SecurityError>(SecurityError::Cipher) ==> data@.len() > 0x10_0000_0000,
{
    match random_bytes(NONCE_LEN) {
        Err(_) => Err(SecurityError::Random),
        Ok(nonce) => encrypt_with_nonce(data, key, nonce.as_slice()),
    }
}

/// Decrypts what `encrypt` made: `None` when the data is shorter than a
/// nonce or does not authenticate under `key`.
pub fn decrypt(data: &[u8], key: &[u8; 32]) -> (r: Option<Vec<u8>>)
    ensures
        match r {
            Some(v) => spec_decrypt(key@, data@) == Some(v@),
            None => spec_decrypt(key@, data@) is None,
        },
{
    if data.len() < NONCE_LEN {
        return None;
    }
    let mut nonce: Vec<u8> = Vec::new();
    let mut rest: Vec<u8> = Vec::new();
    let mut i: usize = 0;
    while i < data.len()
        invariant
            NONCE_LEN <= data@.len(),
            i <= data@.len(),
            i <= NONCE_LEN ==> nonce@ == data@.subrange(0, i as int) && rest@.len() == 0,
            i > NONCE_LEN ==> nonce@ == data@.subrange(0, NONCE_LEN as int) && rest@
                == data@.subrange(NONCE_LEN as int, i as int),
        decreases data@.len() - i,
    {
        if i < NONCE_LEN {
            nonce.push(data[i]);
        } else {
            rest.push(data[i]);
        }
        i += 1;
        assert(nonce@ =~= data@.subrange(0, if i <= NONCE_LEN { i as int } else { NONCE_LEN as int }));
        if i > NONCE_LEN {
            assert(rest@ =~= data@.subrange(NONCE_LEN as int, i as int));
        }
    }
    if data.len() == NONCE_LEN {
        assert(rest@ =~= data@.subrange(NONCE_LEN as int, data@.len() as int));
    }
    aes_gcm_decrypt(key, nonce.as_slice(), rest.as_slice())
}

/// A fresh random AES-256 key from the system's random source.
pub fn generate_key() -> (r: Result<[u8; 32], SecurityError>)
    ensures
        r is Err ==> r == Err::<[u8; 32], SecurityError>(SecurityError::Random),
{
    match random_bytes(32) {
        Err(_) => Err(SecurityError::Random),
        Ok(raw) => match key_from_bytes(raw.as_slice()) {
            Ok(key) => Ok(key),
            Err(_) => Err(SecurityError::Random),
        },
    }
}

/// Why the contents of a key file are not a key.
#[derive(Debug, Clone, Copy, PartialEq, Eq, Structural)]
pub enum KeyError {
    /// The file is empty.
    Empty,
    /// The file does not hold exactly 32 bytes.
    WrongLength,
}

/// Reads a key from the contents of a key file: exactly 32 bytes.
pub fn key_from_bytes(buf: &[u8]) -> (r: Result<[u8; 32], KeyError>)
    ensures
        buf@.len() == 0 ==> r == Err::<[u8; 32], KeyError>(KeyError::Empty),
        buf@.len() != 0 && buf@.len() != 32 ==> r == Err::<[u8; 32], KeyError>(KeyError::WrongLength),
        buf@.len() == 32 ==> r is Ok && r.unwrap()@ == buf@,
{
    if buf.len() == 0 {
        return Err(KeyError::Empty);
    }
    if buf.len() != 32 {
        return Err(KeyError::WrongLength);
    }
    let mut key = [0u8; 32];
    let mut i: usize = 0;
    while i < 32
        invariant
            buf@.len() == 32,
            i <= 32,
            key@.len() == 32,
            forall|j: int| 0 <= j < i ==> key@[j] == buf@[j],
        decreases 32 - i,
    {
        key[i] = buf[i];
        i += 1;
    }
    assert(key@ =~= buf@);
    Ok(key)
}

/// The AES keys a Master knows, each under its name. Names are unique.
pub struct KeyStore {
    entries: Vec<(String, [u8; 32])>,
}

impl KeyStore {
    /// The keys as a map from name to key bytes.
    pub closed spec fn view_map(&self) -> Map<Seq<char>, Seq<u8>> {
        Map::new(
            |n: Seq<char>| exists|i: int| 0 <= i < self.entries@.len() && self.entries@[i].0@ == n,
            |n: Seq<char>|
                self.entries@[choose|i: int|
                    0 <= i < self.entries@.len() && self.entries@[i].0@ == n].1@,
        )
    }

    pub closed spec fn wf(&self) -> bool {
        forall|i: int, j: int|
            0 <= i < j < self.entries@.len() ==> self.entries@[i].0@ != self.entries@[j].0@
    }

    /// A store with no keys.
    pub fn new() -> (r: KeyStore)
        ensures
            r.wf(),
            r.view_map() == Map::<Seq<char>, Seq<u8>>::empty(),
    {
        let r = KeyStore { entries: Vec::new() };
        assert(r.view_map() =~= Map::<Seq<char>, Seq<u8>>::empty());
        r
    }

    fn find(&self, name: &str) -> (r: Option<usize>)
        ensures
            match r {
                Some(i) => i < self.entries@.len() && self.entries@[i as int].0@ == name@,
                None => forall|i: int| 0 <= i < self.entries@.len() ==> self.entries@[i].0@ != name@,
            },
    {
        let mut i: usize = 0;
        while i < self.entries.len()
            invariant
                i <= self.entries@.len(),
                forall|j: int| 0 <= j < i ==> self.entries@[j].0@ != name@,
            decreases self.entries@.len() - i,
        {
            if str_eq(self.entries[i].0.as_str(), name) {
                return Some(i);
            }
            i += 1;
        }
        None
    }

    /// Adds or replaces the key under `name`.
    pub fn insert(&mut self, name: String, key: [u8; 32])
        requires
            old(self).wf(),
        ensures
            final(self).wf(),
            final(self).view_map() == old(self).view_map().insert(name@, key@),
    {
        match self.find(name.as_str()) {
            Some(i) => {
                let ghost old_entries = self.entries@;
                self.entries.set(i, (name, key));
                assert(final(self).view_map() =~= old(self).view_map().insert(name@, key@)) by {
                    assert forall|n: Seq<char>| #[trigger] final(self).view_map().contains_key(n)
                        == old(self).view_map().insert(name@, key@).contains_key(n) by {
                        if n != name@ {
                            if old(self).view_map().contains_key(n) {
                                let k = choose|k: int| 0 <= k < old_entries.len() && old_entries[k].0@ == n;
                                assert(self.entries@[k].0@ == n);
                            }
                        } else {
                            assert(self.entries@[i as int].0@ == n);
                        }
                    }
                    assert forall|n: Seq<char>| #[trigger] final(self).view_map().contains_key(n)
                        implies final(self).view_map()[n] == old(self).view_map().insert(name@, key@)[n] by {
                        let k = choose|k: int| 0 <= k < self.entries@.len() && self.entries@[k].0@ == n;
                        if n == name@ {
                            assert(k == i);
                        } else {
                            let k0 = choose|k0: int| 0 <= k0 < old_entries.len() && old_entries[k0].0@ == n;
                            assert(k0 == k);
                        }
                    }
                }
            },
            None => {
                let ghost old_entries = self.entries@;
                self.entries.push((name, key));
                assert(final(self).view_map() =~= old(self).view_map().insert(name@, key@)) by {
                    let last = old_entries.len() as int;
                    assert forall|n: Seq<char>| #[trigger] final(self).view_map().contains_key(n)
                        == old(self).view_map().insert(name@, key@).contains_key(n) by {
                        if old(self).view_map().contains_key(n) {
                            let k = choose|k: int| 0 <= k < old_entries.len() && old_entries[k].0@ == n;
                            assert(self.entries@[k].0@ == n);
                        }
                        if n == name@ {
                            assert(self.entries@[last].0@ == n);
                        }
                    }
                    assert forall|n: Seq<char>| #[trigger] final(self).view_map().contains_key(n)
                        implies final(self).view_map()[n] == old(self).view_map().insert(name@, key@)[n] by {
                        let k = choose|k: int| 0 <= k < self.entries@.len() && self.entries@[k].0@ == n;
                        if n == name@ {
                            assert(k == last);
                        } else {
                            let k0 = choose|k0: int| 0 <= k0 < old_entries.len() && old_entries[k0].0@ == n;
                            assert(k0 == k);
                        }
                    }
                }
            },
        }
    }

    /// The key under `name`, if any.
    pub fn get(&self, name: &str) -> (r: Option<[u8; 32]>)
        requires
            self.wf(),
        ensures
            match r {
                Some(k) => self.view_map().contains_key(name@) && self.view_map()[name@] == k@,
                None => !self.view_map().contains_key(name@),
            },
    {
        match self.find(name) {
            Some(i) => {
                let k = self.entries[i].1;
                proof {
                    let c = choose|c: int| 0 <= c < self.entries@.len() && self.entries@[c].0@ == name@;
                    assert(c == i);
                }
                Some(k)
            },
            None => None,
        }
    }

    /// Number of keys.
    pub fn len(&self) -> (r: usize)
        requires
            self.wf(),
        ensures
            r == self.view_map().len(),
    {
        proof { self.lemma_len(); }
        self.entries.len()
    }

    proof fn lemma_len(&self)
        requires
            self.wf(),
        ensures
            self.view_map().len() == self.entries@.len(),
    {
        let names = self.entries@.map_values(|e: (String, [u8; 32])| e.0@);
        assert(names.no_duplicates()) by {
            assert forall|i: int, j: int| 0 <= i < names.len() && 0 <= j < names.len() && i != j
                implies names[i] != names[j] by {
                if i < j {
                } else {
                }
            }
        }
        assert(self.view_map().dom() =~= names.to_set()) by {
            assert forall|n: Seq<char>| self.view_map().dom().contains(n) <==> names.to_set().contains(n) by {
                if names.to_set().contains(n) {
                    let k = choose|k: int| 0 <= k < names.len() && names[k] == n;
                    assert(self.entries@[k].0@ == n);
                }
                if self.view_map().dom().contains(n) {
                    let k = choose|k: int| 0 <= k < self.entries@.len() && self.entries@[k].0@ == n;
                    assert(names[k] == n);
                }
            }
        }
        names.unique_seq_to_set();
    }
}

/// Whether two strings are equal.
pub(crate) fn str_eq(a: &str, b: &str) -> (r: bool)
    ensures
        r == (a@ == b@),
{
    let x = a.as_bytes();
    let y = b.as_bytes();
    proof {
        vstd::utf8::encode_utf8_decode_utf8(a@);
        vstd::utf8::encode_utf8_decode_utf8(b@);
    }
    if x.len() != y.len() {
        return false;
    }
    let mut i: usize = 0;
    while i < x.len()
        invariant
            x@ == vstd::utf8::encode_utf8(a@),
            y@ == vstd::utf8::encode_utf8(b@),
            x@.len() == y@.len(),
            i <= x@.len(),
            forall|j: int| 0 <= j < i ==> x@[j] == y@[j],
        decreases x@.len() - i,
    {
        if x[i] != y[i] {
            assert(x@[i as int] != y@[i as int]);
            return false;
        }
        i += 1;
    }
    assert(x@ =~= y@);
    true
}

/// The URL-safe base64 text, without padding, of some bytes.
pub uninterp spec fn base64_url_of(b: Seq<u8>) -> Seq<char>;

/// The bytes that URL-safe, unpadded base64 text stands for, if it is valid.
pub uninterp spec fn base64_url_decoded(s: Seq<char>) -> Option<Seq<u8>>;

/// Relies on the `URL_SAFE_NO_PAD` engine of the base64 crate: encodes
/// bytes as URL-safe base64 without padding.
#[verifier::external_body]
pub fn base64_encode(input: &[u8]) -> (r: String)
    ensures
        r@ == base64_url_of(input@),
        base64_url_decoded(r@) == Some(input@),
{
    base64::engine::general_purpose::URL_SAFE_NO_PAD.encode(input)
}

/// Relies on the `URL_SAFE_NO_PAD` engine of the base64 crate: decodes
/// URL-safe base64 without padding; `None` for text that is not.
#[verifier::external_body]
pub fn base64_decode(input: &str) -> (r: Option<Vec<u8>>)
    ensures
        match r {
            Some(v) => base64_url_decoded(input@) == Some(v@),
            None => base64_url_decoded(input@) is None,
        },
{
    base64::engine::general_purpose::URL_SAFE_NO_PAD.decode(input).ok()
}

} // verus!
