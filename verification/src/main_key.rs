//! The master key pair: sealing it under a password, opening it again,
//! encrypting and decrypting secrets, and the identifier watermark.

use vstd::prelude::*;
use base64ct::Base64;
use base64ct::Encoding;
use rsa::pkcs8::der::pem::PemLabel;
use rsa::pkcs8::pkcs5::pbes2::Kdf;
use rsa::pkcs8::DecodePrivateKey;
use rsa::pkcs8::EncodePrivateKey;
use rsa::pkcs8::EncryptedPrivateKeyInfo;
use rsa::pkcs8::LineEnding;
use rsa::pkcs8::PrivateKeyInfo;
use rsa::pkcs8::SecretDocument;
use rsa::Pkcs1v15Encrypt;
use rsa::PublicKey;
use rsa::PublicKeyParts;
use rsa::RsaPrivateKey;
use rsa::RsaPublicKey;
use crate::errs::KeyBoxErr;
use crate::text::chars_of;
use crate::text::lemma_utf8_len;
use crate::text::same_text;

verus! {

#[verifier::external_type_specification]
#[verifier::external_body]
pub struct ExRsaPrivateKey(rsa::RsaPrivateKey);

#[verifier::external_type_specification]
#[verifier::external_body]
pub struct ExRsaPublicKey(rsa::RsaPublicKey);

#[verifier::external_type_specification]
#[verifier::external_body]
pub struct ExRsaError(rsa::errors::Error);

#[verifier::external_type_specification]
#[verifier::external_body]
pub struct ExPkcs8Error(rsa::pkcs8::Error);

#[verifier::external_type_specification]
#[verifier::external_body]
pub struct ExBase64Error(base64ct::Error);

/// The public half that `RsaPublicKey::from` takes out of a private key.
pub uninterp spec fn public_half(private_key: RsaPrivateKey) -> RsaPublicKey;

/// The length in bytes of a public key's modulus, as `PublicKeyParts::size`
/// reports it.
pub uninterp spec fn modulus_size(public_key: RsaPublicKey) -> nat;

/// The length in bits of a public key's modulus, as `BigUint::bits` gives it.
pub uninterp spec fn modulus_bits(public_key: RsaPublicKey) -> nat;

/// The lengths in bits of the first two primes of a private key, as
/// `BigUint::bits` gives them; nothing where the key holds fewer than two.
pub uninterp spec fn key_prime_bits(private_key: RsaPrivateKey) -> Option<(nat, nat)>;

/// What `PartialEq::eq` says of two private keys: whether modulus, exponents
/// and primes agree. The values precomputed for decryption are not compared.
pub uninterp spec fn keys_equal(left: RsaPrivateKey, right: RsaPrivateKey) -> bool;

/// What `RsaPrivateKey::decrypt` with PKCS#1 v1.5 padding makes of a block:
/// the message, or nothing where the block is not a ciphertext of the key.
pub uninterp spec fn pkcs1v15_opened(private_key: RsaPrivateKey, block: Seq<u8>) -> Option<Seq<u8>>;

/// The padded standard Base64 text that `Base64::encode_string` gives for bytes.
pub uninterp spec fn base64_text(bytes: Seq<u8>) -> Seq<char>;

/// The bytes that `Base64::decode_vec` reads from a text, or nothing where it
/// rejects the text.
pub uninterp spec fn base64_bytes(text: Seq<char>) -> Option<Seq<u8>>;

/// The text that `String::from_utf8_lossy` makes of bytes.
pub uninterp spec fn utf8_lossy(bytes: Seq<u8>) -> Seq<char>;

/// The cost parameter of the scrypt key derivation that a PEM container
/// names; nothing where the text is no container of an encrypted private key
/// or names another key derivation.
pub uninterp spec fn container_cost(pem: Seq<char>) -> Option<u16>;

/// The PKCS#8 document inside a PEM container labelled as an encrypted
/// private key, once decrypted under a password; nothing where the text is
/// no such container or the password does not open it.
pub uninterp spec fn container_plain(pem: Seq<char>, password: Seq<char>) -> Option<Seq<u8>>;

/// The two prime factors, as big-endian bytes, of the PKCS#1 private key
/// inside a PKCS#8 document; nothing where the document does not parse.
pub uninterp spec fn pkcs8_primes(document: Seq<u8>) -> Option<(Seq<u8>, Seq<u8>)>;

/// The key that `RsaPrivateKey::from_pkcs8_der` reads from a PKCS#8 document.
pub uninterp spec fn pkcs8_key(document: Seq<u8>) -> Option<RsaPrivateKey>;

/// Whether `RsaPrivateKey::validate` accepts a key: the primes multiply to
/// the modulus and the exponents match them.
pub uninterp spec fn key_validates(private_key: RsaPrivateKey) -> bool;

/// The number that big-endian `bytes` spell.
pub open spec fn be_value(bytes: Seq<u8>) -> nat
    decreases bytes.len(),
{
    if bytes.len() == 0 {
        0
    } else {
        be_value(bytes.drop_last()) * 256 + bytes.last() as nat
    }
}

/// The two primes of a PKCS#8 document are told and both exceed one.
pub open spec fn primes_exceed_one(document: Seq<u8>) -> bool {
    pkcs8_primes(document) matches Some(primes) && be_value(primes.0) > 1 && be_value(primes.1)
        > 1
}

/// A key holds two primes and the first two are of one length in bits.
/// Decryption brings a residue of the one prime into the range of the other
/// by adding that prime again and again; with primes of one length two
/// additions do.
pub open spec fn balanced(private_key: RsaPrivateKey) -> bool {
    key_prime_bits(private_key) matches Some(bits) && bits.0 == bits.1
}

/// The private key that a sealed container yields under a password. None
/// comes from a container whose scrypt cost is zero, whose key has a prime
/// factor below two, whose key does not hold together, or whose primes
/// differ in length.
pub open spec fn unlocked(pem: Seq<char>, password: Seq<char>) -> Option<RsaPrivateKey> {
    if container_cost(pem) == Some(0u16) {
        None
    } else {
        match container_plain(pem, password) {
            Some(document) if primes_exceed_one(document) => match pkcs8_key(document) {
                Some(private_key) if key_validates(private_key) && balanced(private_key) => Some(
                    private_key,
                ),
                _ => None,
            },
            _ => None,
        }
    }
}

/// The length of the padded Base64 text of `n` bytes: four characters for
/// every three bytes begun.
pub open spec fn base64_len(n: nat) -> nat {
    4 * ((n + 2) / 3)
}

/// What a private key makes of a stored secret: the text is decoded, the
/// block decrypted, the message read as text.
pub open spec fn opened_text(private_key: RsaPrivateKey, text: Seq<char>) -> Result<
    Seq<char>,
    KeyBoxErr,
> {
    match base64_bytes(text) {
        None => Err(KeyBoxErr::DecryptionError),
        Some(block) => match pkcs1v15_opened(private_key, block) {
            None => Err(KeyBoxErr::DecryptionError),
            Some(message) => Ok(utf8_lossy(message)),
        },
    }
}

/// The bytes of a block, if there is one.
pub open spec fn block_view(block: Option<Vec<u8>>) -> Option<Seq<u8>> {
    match block {
        Some(bytes) => Some(bytes@),
        None => None,
    }
}

/// An executable result agrees with its model.
pub open spec fn agrees(res: Result<String, KeyBoxErr>, model: Result<Seq<char>, KeyBoxErr>) -> bool {
    match res {
        Ok(text) => model == Ok::<Seq<char>, KeyBoxErr>(text@),
        Err(e) => model == Err::<Seq<char>, KeyBoxErr>(e),
    }
}

/// `RsaPublicKey::from(&RsaPrivateKey)`: copies the modulus and the public
/// exponent out of the private key, so the result depends on the key alone.
#[verifier::external_body]
fn derive_public(private_key: &RsaPrivateKey) -> (public_key: RsaPublicKey)
    ensures
        public_key == public_half(*private_key),
{
    RsaPublicKey::from(private_key)
}

/// `PublicKeyParts::size`: the number of bytes of the modulus, which is its
/// number of bits, rounded up to whole bytes.
#[verifier::external_body]
fn modulus_bytes(public_key: &RsaPublicKey) -> (size: usize)
    ensures
        size == modulus_size(*public_key),
        size == (modulus_bits(*public_key) + 7) / 8,
{
    public_key.size()
}

/// `PublicKeyParts::n`, then `BigUint::bits`: the number of bits of the
/// modulus.
#[verifier::external_body]
fn modulus_bit_length(public_key: &RsaPublicKey) -> (bits: usize)
    ensures
        bits == modulus_bits(*public_key),
{
    public_key.n().bits()
}

/// `RsaPrivateKey::primes`, then `BigUint::bits` of the first two. A key
/// that was wiped holds no primes, and gives none.
#[verifier::external_body]
fn prime_bits(private_key: &RsaPrivateKey) -> (bits: Option<(usize, usize)>)
    ensures
        match bits {
            Some(found) => key_prime_bits(*private_key) == Some((found.0 as nat, found.1 as nat)),
            None => key_prime_bits(*private_key) is None,
        },
{
    let primes = private_key.primes();
    Some((primes.first()?.bits(), primes.get(1)?.bits()))
}

/// Tells whether a key holds two primes of one length in bits.
fn is_balanced(private_key: &RsaPrivateKey) -> (yes: bool)
    ensures
        yes == balanced(*private_key),
{
    match prime_bits(private_key) {
        Some(bits) => bits.0 == bits.1,
        None => false,
    }
}

/// `PartialEq::eq` of `RsaPrivateKey`. It compares the modulus, the two
/// exponents and the primes, and leaves out the values precomputed for
/// decryption: so nothing is claimed but what it answered.
#[verifier::external_body]
fn same_key(left: &RsaPrivateKey, right: &RsaPrivateKey) -> (same: bool)
    ensures
        same == keys_equal(*left, *right),
{
    left == right
}

/// `RsaPrivateKey::new` on the thread's random generator. Nothing is claimed
/// of the key that comes back. Below 64 bits the generation may refuse or
/// never end, so such sizes are left out.
#[verifier::external_body]
fn fresh_private_key(bits: usize) -> (outcome: Result<RsaPrivateKey, rsa::errors::Error>)
    requires
        bits >= 64,
{
    RsaPrivateKey::new(&mut rand::thread_rng(), bits)
}

/// `EncodePrivateKey::to_pkcs8_encrypted_pem` with CRLF line endings, on the
/// thread's random generator. Salt and nonce are random, so nothing is
/// claimed of the text that comes back. It reads the first two primes, so a
/// key without them is left out.
#[verifier::external_body]
fn seal_key(private_key: &RsaPrivateKey, password: &str) -> (outcome: Result<
    String,
    rsa::pkcs8::Error,
>)
    requires
        balanced(*private_key),
{
    let pem = private_key.to_pkcs8_encrypted_pem(
        rand::thread_rng(),
        password.as_bytes(),
        LineEnding::CRLF,
    )?;
    Ok(pem.to_string())
}

/// `SecretDocument::from_pem`, `EncryptedPrivateKeyInfo::try_from` and
/// `EncryptionScheme::pbes2`: the cost parameter that the container gives
/// for scrypt, as it stands in the text.
#[verifier::external_body]
fn scrypt_cost(pem: &str) -> (cost: Option<u16>)
    ensures
        cost == container_cost(pem@),
{
    let (_, sealed) = SecretDocument::from_pem(pem).ok()?;
    let info = EncryptedPrivateKeyInfo::try_from(sealed.as_bytes()).ok()?;
    match info.encryption_algorithm.pbes2()?.kdf {
        Kdf::Scrypt(params) => Some(params.cost_parameter),
        _ => None,
    }
}

/// The first steps of `DecodePrivateKey::from_pkcs8_encrypted_pem`:
/// `SecretDocument::from_pem`, the check of the PEM label, and
/// `EncryptedPrivateKeyInfo::decrypt`. The result depends on the two texts
/// alone. The decryption takes the logarithm of the scrypt cost, which
/// overflows on a cost of zero: such containers are left out.
#[verifier::external_body]
fn open_container(pem: &str, password: &str) -> (outcome: Result<Vec<u8>, rsa::pkcs8::Error>)
    requires
        container_cost(pem@) != Some(0u16),
    ensures
        match outcome {
            Ok(document) => container_plain(pem@, password@) == Some(document@),
            Err(_) => container_plain(pem@, password@) is None,
        },
{
    let (label, sealed) = SecretDocument::from_pem(pem)?;
    EncryptedPrivateKeyInfo::validate_pem_label(label)?;
    let plain = EncryptedPrivateKeyInfo::try_from(sealed.as_bytes())?.decrypt(password.as_bytes())?;
    Ok(plain.as_bytes().to_vec())
}

/// `PrivateKeyInfo::try_from`, then `pkcs1::RsaPrivateKey::try_from` on the
/// key data: the two prime factors as the document holds them.
#[verifier::external_body]
fn document_primes(document: &Vec<u8>) -> (outcome: Result<(Vec<u8>, Vec<u8>), rsa::pkcs8::Error>)
    ensures
        match outcome {
            Ok(primes) => pkcs8_primes(document@) == Some((primes.0@, primes.1@)),
            Err(_) => pkcs8_primes(document@) is None,
        },
{
    let info = PrivateKeyInfo::try_from(document.as_slice())?;
    let key = rsa::pkcs1::RsaPrivateKey::try_from(info.private_key)?;
    Ok((key.prime1.as_bytes().to_vec(), key.prime2.as_bytes().to_vec()))
}

/// `DecodePrivateKey::from_pkcs8_der`. It precomputes with the primes less
/// one as divisors, which panics on a prime below two: such documents are
/// left out.
#[verifier::external_body]
fn document_key(document: &Vec<u8>) -> (outcome: Result<RsaPrivateKey, rsa::pkcs8::Error>)
    requires
        primes_exceed_one(document@),
    ensures
        match outcome {
            Ok(private_key) => pkcs8_key(document@) == Some(private_key),
            Err(_) => pkcs8_key(document@) is None,
        },
{
    RsaPrivateKey::from_pkcs8_der(document)
}

/// `RsaPrivateKey::validate`. It divides by the primes less one, which
/// panics on a prime of one: it is asked only of a key read from a document
/// whose primes exceed one.
#[verifier::external_body]
fn key_is_valid(private_key: &RsaPrivateKey) -> (valid: bool)
    requires
        exists|document: Seq<u8>|
            #[trigger] pkcs8_key(document) == Some(*private_key) && primes_exceed_one(document),
    ensures
        valid == key_validates(*private_key),
{
    private_key.validate().is_ok()
}

/// `PublicKey::encrypt` with PKCS#1 v1.5 padding on the thread's random
/// generator. The padding is random, so only the length of the block is
/// stated: that of the modulus. The padding takes eleven bytes; a longer
/// message, or a modulus shorter than that, is left out.
#[verifier::external_body]
fn rsa_encrypt(public_key: &RsaPublicKey, message: &[u8]) -> (outcome: Result<
    Vec<u8>,
    rsa::errors::Error,
>)
    requires
        message@.len() + 11 <= modulus_size(*public_key),
    ensures
        outcome matches Ok(block) ==> block@.len() == modulus_size(*public_key),
{
    public_key.encrypt(&mut rand::thread_rng(), Pkcs1v15Encrypt, message)
}

/// `RsaPrivateKey::decrypt` with PKCS#1 v1.5 padding, without blinding: the
/// result depends on the key and the block alone. It adds the first prime
/// to a difference of residues until that is no longer negative, which
/// takes as many passes as the second prime is larger: keys whose first two
/// primes differ in length are left out.
#[verifier::external_body]
fn rsa_decrypt(private_key: &RsaPrivateKey, block: &Vec<u8>) -> (outcome: Result<
    Vec<u8>,
    rsa::errors::Error,
>)
    requires
        balanced(*private_key),
    ensures
        match outcome {
            Ok(message) => pkcs1v15_opened(*private_key, block@) == Some(message@),
            Err(_) => pkcs1v15_opened(*private_key, block@) is None,
        },
{
    private_key.decrypt(Pkcs1v15Encrypt, block)
}

/// `Base64::encode_string`. The text has four characters for every three
/// bytes begun. It panics on more than a quarter of `usize::MAX` bytes.
#[verifier::external_body]
fn base64_encode(bytes: &Vec<u8>) -> (text: String)
    requires
        bytes@.len() <= usize::MAX / 4,
    ensures
        text@ == base64_text(bytes@),
        text@.len() == base64_len(bytes@.len()),
{
    Base64::encode_string(bytes)
}

/// `Base64::decode_vec`.
#[verifier::external_body]
fn base64_decode(text: &str) -> (outcome: Result<Vec<u8>, base64ct::Error>)
    ensures
        match outcome {
            Ok(bytes) => base64_bytes(text@) == Some(bytes@),
            Err(_) => base64_bytes(text@) is None,
        },
{
    Base64::decode_vec(text)
}

/// `String::from_utf8_lossy`, as an owned text.
#[verifier::external_body]
fn lossy_text(bytes: &Vec<u8>) -> (text: String)
    ensures
        text@ == utf8_lossy(bytes@),
{
    String::from_utf8_lossy(bytes).into_owned()
}

/// Tells whether big-endian `bytes` spell a number above one.
fn exceeds_one(bytes: &Vec<u8>) -> (yes: bool)
    ensures
        yes == (be_value(bytes@) > 1),
{
    let mut level: u8 = 0;
    let mut i: usize = 0;
    while i < bytes.len()
        invariant
            i <= bytes@.len(),
            level <= 2,
            level < 2 ==> level == be_value(bytes@.subrange(0, i as int)),
            level == 2 ==> be_value(bytes@.subrange(0, i as int)) >= 2,
        decreases bytes@.len() - i,
    {
        let b: u8 = bytes[i];
        proof {
            let upto = bytes@.subrange(0, i + 1);
            assert(upto.drop_last() =~= bytes@.subrange(0, i as int));
            assert(upto.last() == b);
        }
        if level >= 1 || b >= 2 {
            level = 2;
        } else {
            level = b;
        }
        i += 1;
    }
    proof {
        assert(bytes@.subrange(0, i as int) =~= bytes@);
    }
    level == 2
}

/// The master key pair together with the highest identifier given out so far.
pub struct MainKey {
    public_key: RsaPublicKey,
    private_key: RsaPrivateKey,
    max_id: u32,
}

impl MainKey {
    #[verifier::type_invariant]
    spec fn sound(self) -> bool {
        self.public_key == public_half(self.private_key) && balanced(self.private_key)
    }

    /// The highest identifier given out so far: the watermark.
    pub closed spec fn max_id(&self) -> u32 {
        self.max_id
    }

    /// The private half of the pair.
    pub closed spec fn secret_key(&self) -> RsaPrivateKey {
        self.private_key
    }

    /// The largest number of bytes that a secret may hold; negative where the
    /// key is too short to hold any.
    pub open spec fn payload_limit(&self) -> int {
        modulus_size(public_half(self.secret_key())) - 11
    }

    /// What this key makes of a stored secret.
    pub open spec fn decrypted(&self, text: Seq<char>) -> Result<Seq<char>, KeyBoxErr> {
        opened_text(self.secret_key(), text)
    }

    /// What `encrypt` hands out once the cipher has given `block`, or has
    /// given none: the text of the block if this key opens it to `pwd` again.
    pub open spec fn sealed_text(&self, pwd: Seq<char>, block: Option<Seq<u8>>) -> Option<
        Seq<char>,
    > {
        match block {
            Some(bytes) if bytes.len() <= usize::MAX / 4 && self.decrypted(base64_text(bytes))
                == Ok::<Seq<char>, KeyBoxErr>(pwd) => Some(base64_text(bytes)),
            _ => None,
        }
    }

    /// The watermark, as a value at run time.
    pub fn watermark(&self) -> (id: u32)
        ensures
            id == self.max_id(),
    {
        self.max_id
    }

    /// The largest number of bytes that a secret may hold under this key.
    pub fn max_secret_len(&self) -> (len: usize)
        ensures
            len == if self.payload_limit() < 0 {
                0
            } else {
                self.payload_limit()
            },
    {
        proof {
            use_type_invariant(self);
        }
        let size: usize = modulus_bytes(&self.public_key);
        if size < 11 {
            0
        } else {
            size - 11
        }
    }

    /// Decrypts a stored secret: decodes the text, decrypts the block with the
    /// private key, and reads the message as text.
    pub fn decrypt(&self, pwd: &str) -> (res: Result<String, KeyBoxErr>)
        ensures
            agrees(res, self.decrypted(pwd@)),
    {
        proof {
            use_type_invariant(self);
        }
        let block = match base64_decode(pwd) {
            Ok(block) => block,
            Err(_) => {
                return Err(KeyBoxErr::DecryptionError);
            },
        };
        match rsa_decrypt(&self.private_key, &block) {
            Ok(message) => Ok(lossy_text(&message)),
            Err(_) => Err(KeyBoxErr::DecryptionError),
        }
    }

    /// What `encrypt` returns for an outcome of the cipher. A block is handed
    /// out as text only if this key opens that text to `pwd` again, so no
    /// caller ever stores a secret that cannot be recovered.
    pub fn sealed(&self, pwd: &str, block: Option<Vec<u8>>) -> (res: Result<String, KeyBoxErr>)
        ensures
            match res {
                Ok(text) => self.sealed_text(pwd@, block_view(block)) == Some(text@),
                Err(e) => e == KeyBoxErr::KeyGenerationError && self.sealed_text(
                    pwd@,
                    block_view(block),
                ) is None,
            },
            res matches Ok(text) ==> block_view(block) matches Some(bytes) && text@.len()
                == base64_len(bytes.len()),
    {
        let bytes = match block {
            Some(bytes) => bytes,
            None => {
                return Err(KeyBoxErr::KeyGenerationError);
            },
        };
        if bytes.len() > usize::MAX / 4 {
            return Err(KeyBoxErr::KeyGenerationError);
        }
        let text = base64_encode(&bytes);
        match self.decrypt(text.as_str()) {
            Ok(back) => {
                if same_text(&chars_of(back.as_str()), &chars_of(pwd)) {
                    Ok(text)
                } else {
                    Err(KeyBoxErr::KeyGenerationError)
                }
            },
            Err(_) => Err(KeyBoxErr::KeyGenerationError),
        }
    }

    /// Encrypts a secret under the public key and encodes the block as text.
    /// A secret longer than the key can hold is refused. The padding is
    /// random, so the text is not told in advance; whatever the cipher gave,
    /// a text that comes back is that of one block as long as the modulus,
    /// it decrypts to the secret, and it is longer than the secret: what is
    /// stored is never the secret itself.
    pub fn encrypt(&self, pwd: &str) -> (res: Result<String, KeyBoxErr>)
        ensures
            vstd::utf8::encode_utf8(pwd@).len() > self.payload_limit() ==> res is Err,
            res matches Ok(text) ==> self.decrypted(text@) == Ok::<Seq<char>, KeyBoxErr>(pwd@),
            res matches Ok(text) ==> exists|block: Seq<u8>|
                block.len() == self.payload_limit() + 11 && #[trigger] self.sealed_text(
                    pwd@,
                    Some(block),
                ) == Some(text@),
            res matches Ok(text) ==> text@.len() == base64_len((self.payload_limit() + 11) as nat),
            res matches Ok(text) ==> text@ != pwd@,
            res matches Err(e) ==> e == KeyBoxErr::KeyGenerationError,
    {
        proof {
            use_type_invariant(self);
        }
        let message: &[u8] = pwd.as_bytes();
        let size: usize = modulus_bytes(&self.public_key);
        if size < 11 || message.len() > size - 11 {
            return Err(KeyBoxErr::KeyGenerationError);
        }
        let block = match rsa_encrypt(&self.public_key, message) {
            Ok(block) => Some(block),
            Err(_) => None,
        };
        let ghost given = block;
        let res = self.sealed(pwd, block);
        proof {
            if res is Ok {
                assert(self.sealed_text(pwd@, Some(given.unwrap()@)) == Some(res.unwrap()@));
                lemma_utf8_len(pwd@);
            }
        }
        res
    }

    /// Raises the watermark to `id` if it is below.
    pub fn replace_max_key_id(&mut self, id: u32)
        ensures
            final(self).max_id() == if id > old(self).max_id() {
                id
            } else {
                old(self).max_id()
            },
            final(self).secret_key() == old(self).secret_key(),
        no_unwind
    {
        proof {
            use_type_invariant(&*self);
        }
        if id > self.max_id {
            self.max_id = id;
        }
    }

    /// Gives out the next identifier: one above the watermark, which moves up
    /// to it.
    pub fn get_next_id(&mut self) -> (id: u32)
        requires
            old(self).max_id() < u32::MAX,
        ensures
            id == old(self).max_id() + 1,
            final(self).max_id() == id,
            final(self).secret_key() == old(self).secret_key(),
        no_unwind
    {
        proof {
            use_type_invariant(&*self);
        }
        self.max_id = self.max_id + 1;
        self.max_id
    }

    /// Opens a sealed container with a password. The watermark starts at zero.
    /// A container that does not open, under this password, to a key the
    /// library can use gives `WrongPassword`, and nothing else ever does.
    pub fn load_key_with_password(key: String, password: String) -> (res: Result<MainKey, KeyBoxErr>)
        ensures
            match res {
                Ok(main_key) => unlocked(key@, password@) == Some(main_key.secret_key())
                    && main_key.max_id() == 0,
                Err(e) => e == KeyBoxErr::WrongPassword && unlocked(key@, password@) is None,
            },
    {
        if let Some(0) = scrypt_cost(key.as_str()) {
            return Err(KeyBoxErr::WrongPassword);
        }
        let document = match open_container(key.as_str(), password.as_str()) {
            Ok(document) => document,
            Err(_) => {
                return Err(KeyBoxErr::WrongPassword);
            },
        };
        let primes = match document_primes(&document) {
            Ok(primes) => primes,
            Err(_) => {
                return Err(KeyBoxErr::WrongPassword);
            },
        };
        if !exceeds_one(&primes.0) || !exceeds_one(&primes.1) {
            return Err(KeyBoxErr::WrongPassword);
        }
        let private_key = match document_key(&document) {
            Ok(private_key) => private_key,
            Err(_) => {
                return Err(KeyBoxErr::WrongPassword);
            },
        };
        if !key_is_valid(&private_key) {
            return Err(KeyBoxErr::WrongPassword);
        }
        if !is_balanced(&private_key) {
            return Err(KeyBoxErr::WrongPassword);
        }
        let public_key = derive_public(&private_key);
        Ok(MainKey { public_key, private_key, max_id: 0 })
    }

    /// Takes a private key into use as the master key, with the watermark at
    /// zero, if its modulus has 2048 bits or more and its first two primes
    /// are of one length; any other key is refused.
    pub fn adopt(private_key: RsaPrivateKey) -> (res: Result<MainKey, KeyBoxErr>)
        ensures
            match res {
                Ok(main_key) => {
                    &&& main_key.secret_key() == private_key
                    &&& main_key.max_id() == 0
                    &&& main_key.payload_limit() >= 245
                    &&& modulus_bits(public_half(private_key)) >= 2048
                    &&& balanced(private_key)
                },
                Err(e) => e == KeyBoxErr::KeyGenerationError && (modulus_bits(
                    public_half(private_key),
                ) < 2048 || !balanced(private_key)),
            },
    {
        let public_key = derive_public(&private_key);
        // 2048 bits make 256 bytes, of which the padding takes eleven.
        let size: usize = modulus_bytes(&public_key);
        if modulus_bit_length(&public_key) < 2048 || size < 256 || !is_balanced(&private_key) {
            Err(KeyBoxErr::KeyGenerationError)
        } else {
            Ok(MainKey { public_key, private_key, max_id: 0 })
        }
    }

    /// Generates a key pair of 2048 bits and takes it into use. The watermark
    /// starts at zero.
    pub fn generate() -> (res: Result<MainKey, KeyBoxErr>)
        ensures
            match res {
                Ok(main_key) => main_key.max_id() == 0 && main_key.payload_limit() >= 245,
                Err(e) => e == KeyBoxErr::KeyGenerationError,
            },
    {
        match fresh_private_key(2048) {
            Ok(private_key) => MainKey::adopt(private_key),
            Err(_) => Err(KeyBoxErr::KeyGenerationError),
        }
    }

    /// Seals the private key under a password: the container text that the
    /// caller persists as the master key's file. Salt and nonce are random,
    /// so the text is not told in advance; whatever came out, a container is
    /// handed on only if it opens under the password to a key with the
    /// modulus, exponents and primes of this one.
    pub fn seal(&self, password: &str) -> (res: Result<String, KeyBoxErr>)
        ensures
            match res {
                Ok(container) => unlocked(container@, password@) matches Some(opened)
                    && keys_equal(opened, self.secret_key()),
                Err(e) => e == KeyBoxErr::KeyGenerationError,
            },
    {
        proof {
            use_type_invariant(self);
        }
        match seal_key(&self.private_key, password) {
            Ok(container) => self.confirm_container(container, password),
            Err(_) => Err(KeyBoxErr::KeyGenerationError),
        }
    }

    /// What `seal` returns for a container that came out of sealing: the
    /// container itself if it opens under the password to a key with the
    /// modulus, exponents and primes of this one, and a failure otherwise.
    pub fn confirm_container(&self, container: String, password: &str) -> (res: Result<
        String,
        KeyBoxErr,
    >)
        ensures
            match res {
                Ok(text) => text@ == container@ && (unlocked(container@, password@) matches Some(
                    opened,
                ) && keys_equal(opened, self.secret_key())),
                Err(e) => e == KeyBoxErr::KeyGenerationError && !(unlocked(container@, password@)
                    matches Some(opened) && keys_equal(opened, self.secret_key())),
            },
    {
        match MainKey::load_key_with_password(container.clone(), password.to_owned()) {
            Ok(opened) => {
                if same_key(&opened.private_key, &self.private_key) {
                    Ok(container)
                } else {
                    Err(KeyBoxErr::KeyGenerationError)
                }
            },
            Err(_) => Err(KeyBoxErr::KeyGenerationError),
        }
    }

    /// Takes a freshly sealed container into use: opens it under the password
    /// and keeps the key it yields, with the watermark at zero, if the
    /// modulus has 2048 bits or more. The key in use is then the key that
    /// the container holds.
    pub fn adopt_container(container: String, password: String) -> (res: Result<
        (MainKey, String),
        KeyBoxErr,
    >)
        ensures
            match res {
                Ok(made) => {
                    &&& made.1@ == container@
                    &&& unlocked(container@, password@) == Some(made.0.secret_key())
                    &&& made.0.max_id() == 0
                    &&& made.0.payload_limit() >= 245
                    &&& modulus_bits(public_half(made.0.secret_key())) >= 2048
                },
                Err(e) => e == KeyBoxErr::KeyGenerationError && (unlocked(container@, password@)
                    matches Some(opened) ==> modulus_bits(public_half(opened)) < 2048),
            },
    {
        match MainKey::load_key_with_password(container.clone(), password) {
            Ok(main_key) => {
                proof {
                    use_type_invariant(&main_key);
                }
                // 2048 bits make 256 bytes, of which the padding takes eleven.
                let size: usize = modulus_bytes(&main_key.public_key);
                if modulus_bit_length(&main_key.public_key) < 2048 || size < 256 {
                    Err(KeyBoxErr::KeyGenerationError)
                } else {
                    Ok((main_key, container))
                }
            },
            Err(_) => Err(KeyBoxErr::KeyGenerationError),
        }
    }

    /// Generates a key pair of 2048 bits and seals the private key under the
    /// password. The key handed out is the one that the container yields
    /// when it is opened again, with the watermark at zero: so the container
    /// that the caller persists opens under the password to the key in use.
    pub fn generate_with_password(password: String) -> (res: Result<(MainKey, String), KeyBoxErr>)
        ensures
            match res {
                Ok(made) => {
                    &&& unlocked(made.1@, password@) == Some(made.0.secret_key())
                    &&& made.0.max_id() == 0
                    &&& made.0.payload_limit() >= 245
                },
                Err(e) => e == KeyBoxErr::KeyGenerationError,
            },
    {
        let fresh = match MainKey::generate() {
            Ok(fresh) => fresh,
            Err(e) => {
                return Err(e);
            },
        };
        proof {
            use_type_invariant(&fresh);
        }
        match seal_key(&fresh.private_key, password.as_str()) {
            Ok(container) => MainKey::adopt_container(container, password),
            Err(_) => Err(KeyBoxErr::KeyGenerationError),
        }
    }
}

} // verus!
