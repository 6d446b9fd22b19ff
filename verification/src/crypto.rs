//! Value encryption hooks for secure keyspaces.

use std::sync::Arc;

use vstd::prelude::*;
use vstd::utf8::encode_utf8;

use crate::error::Error;
use crate::order::{
    append_be_bytes, append_bytes, be_bytes, be_value, bytes_equal, copy_bytes, has_prefix,
    lemma_be_bytes_len, lemma_be_round_trip, pow256, read_be_bytes,
};
use crate::policy::RetentionPolicy;
use crate::storage::UserValue;

pub mod laws;

verus! {

/// What every encrypted value begins with.
pub const VALUE_ENCRYPTION_MAGIC: &'static str = "fjall:secure:v1:";

/// Length of the ciphertext length that follows the marker.
pub const CIPHERTEXT_LEN_LEN: usize = 4;

/// Encryption scope requested for a secure keyspace.
#[derive(Clone, Copy, Debug, Eq, PartialEq)]
pub enum EncryptionScope {
    /// Encrypt values before storing them.
    Value,

    /// Reserved for lower-level block encryption.
    Block,

    /// Keyspace-level policy scope.
    Keyspace,
}

/// Context passed to encryption providers.
#[derive(Clone, Copy, Debug)]
pub struct CryptoContext<'a> {
    /// Logical secure keyspace name.
    pub keyspace: &'a str,

    /// Encoded physical key.
    pub key: &'a [u8],

    /// Requested encryption scope.
    pub scope: EncryptionScope,
}

/// Pluggable encryption provider for secure keyspace values.
pub trait CryptoProvider: Send + Sync + 'static {
    /// Encrypts plaintext bytes.
    ///
    /// # Errors
    ///
    /// Returns an error when key lookup or encryption fails.
    fn encrypt(&self, context: CryptoContext<'_>, plaintext: &[u8]) -> Result<Vec<u8>, Error>;

    /// Decrypts ciphertext bytes.
    ///
    /// # Errors
    ///
    /// Returns an error when key lookup or decryption fails.
    fn decrypt(&self, context: CryptoContext<'_>, ciphertext: &[u8]) -> Result<Vec<u8>, Error>;
}

/// Encryption configuration for a secure keyspace.
pub struct EncryptionConfig<C> {
    /// The provider that encrypts and decrypts.
    pub provider: Arc<C>,

    /// Requested encryption scope.
    pub scope: EncryptionScope,
}

impl<C> Clone for EncryptionConfig<C> {
    fn clone(&self) -> (copy: Self)
        ensures
            copy == *self,
    {
        EncryptionConfig { provider: self.provider.clone(), scope: self.scope }
    }
}

impl<C> EncryptionConfig<C> {
    /// The configured provider.
    pub open spec fn provider(self) -> C {
        *self.provider
    }
}

impl<C: CryptoProvider> EncryptionConfig<C> {
    /// Creates value encryption config from a provider.
    #[must_use]
    pub fn new(provider: C, scope: EncryptionScope) -> (config: Self)
        ensures
            config.provider() == provider,
            config.scope == scope,
    {
        EncryptionConfig { provider: Arc::new(provider), scope }
    }
}

/// Stands for the encryption provider where values are stored as they are.
#[derive(Clone, Copy, Debug)]
pub struct NoEncryption;

impl CryptoProvider for NoEncryption {
    fn encrypt(&self, context: CryptoContext<'_>, plaintext: &[u8]) -> (encrypted: Result<
        Vec<u8>,
        Error,
    >)
        ensures
            bytes_outcome(encrypted) == Ok::<Seq<u8>, Error>(plaintext@),
    {
        Ok(copy_bytes(plaintext))
    }

    fn decrypt(&self, context: CryptoContext<'_>, ciphertext: &[u8]) -> (decrypted: Result<
        Vec<u8>,
        Error,
    >)
        ensures
            bytes_outcome(decrypted) == Ok::<Seq<u8>, Error>(ciphertext@),
    {
        Ok(copy_bytes(ciphertext))
    }
}

/// Options to create or open a secure keyspace.
pub struct SecureKeyspaceOptions<C, O> {
    /// Raw keyspace creation options, handed on to the storage engine.
    pub create_options: O,

    /// Optional value encryption configuration.
    pub encryption: Option<EncryptionConfig<C>>,

    /// Optional keyspace-scope retention policy.
    pub retention: Option<RetentionPolicy>,
}

impl<C, O: Clone> Clone for SecureKeyspaceOptions<C, O> {
    fn clone(&self) -> (copy: Self)
        ensures
            call_ensures(O::clone, (&self.create_options,), copy.create_options),
            copy.encryption == self.encryption,
            copy.retention == self.retention,
    {
        SecureKeyspaceOptions {
            create_options: self.create_options.clone(),
            encryption: match &self.encryption {
                Some(encryption) => Some(encryption.clone()),
                None => None,
            },
            retention: self.retention,
        }
    }
}

impl<O: Default> Default for SecureKeyspaceOptions<NoEncryption, O> {
    fn default() -> (options: Self)
        ensures
            call_ensures(O::default, (), options.create_options),
            options.encryption is None,
            options.retention is None,
    {
        SecureKeyspaceOptions { create_options: O::default(), encryption: None, retention: None }
    }
}

impl<C, O> SecureKeyspaceOptions<C, O> {
    /// Sets raw keyspace creation options.
    #[must_use]
    pub fn with_create_options<N>(self, create_options: N) -> (options: SecureKeyspaceOptions<C, N>)
        ensures
            options == (SecureKeyspaceOptions {
                create_options,
                encryption: self.encryption,
                retention: self.retention,
            }),
    {
        SecureKeyspaceOptions {
            create_options,
            encryption: self.encryption,
            retention: self.retention,
        }
    }

    /// Enables value encryption for this secure keyspace.
    #[must_use]
    pub fn with_encryption<D>(self, encryption: EncryptionConfig<D>) -> (options:
        SecureKeyspaceOptions<D, O>)
        ensures
            options == (SecureKeyspaceOptions {
                create_options: self.create_options,
                encryption: Some(encryption),
                retention: self.retention,
            }),
    {
        SecureKeyspaceOptions {
            create_options: self.create_options,
            encryption: Some(encryption),
            retention: self.retention,
        }
    }

    /// Enables retention policy compaction for this secure keyspace.
    #[must_use]
    pub fn with_retention(self, retention: RetentionPolicy) -> (options: Self)
        ensures
            options == (SecureKeyspaceOptions {
                create_options: self.create_options,
                encryption: self.encryption,
                retention: Some(retention),
            }),
    {
        SecureKeyspaceOptions {
            create_options: self.create_options,
            encryption: self.encryption,
            retention: Some(retention),
        }
    }
}

// ---------------------------------------------------------------------------
// Stored form
// ---------------------------------------------------------------------------
/// The stored form of a ciphertext: the marker, the length, the ciphertext.
pub open spec fn framed(ciphertext: Seq<u8>) -> Seq<u8> {
    encode_utf8(VALUE_ENCRYPTION_MAGIC@) + be_bytes(ciphertext.len(), CIPHERTEXT_LEN_LEN as nat)
        + ciphertext
}

/// The ciphertext of a stored form, or why it is none.
pub open spec fn unframed(stored: Seq<u8>) -> Result<Seq<u8>, Error> {
    let magic = encode_utf8(VALUE_ENCRYPTION_MAGIC@);
    if !has_prefix(stored, magic) {
        Err(Error::Crypto("encrypted value marker missing"))
    } else {
        let rest = stored.skip(magic.len() as int);
        if rest.len() < CIPHERTEXT_LEN_LEN {
            Err(Error::Crypto("encrypted value length missing"))
        } else {
            let ciphertext = rest.skip(CIPHERTEXT_LEN_LEN as int);
            if be_value(rest.take(CIPHERTEXT_LEN_LEN as int)) != ciphertext.len() {
                Err(Error::Crypto("encrypted value length mismatch"))
            } else {
                Ok(ciphertext)
            }
        }
    }
}

/// Frames what an encryption provider returned.
///
/// # Errors
///
/// Returns the provider's error, or an error if the ciphertext is too long for
/// its length to be recorded.
pub fn frame_ciphertext(encrypted: Result<Vec<u8>, Error>) -> (stored: Result<UserValue, Error>)
    ensures
        match encrypted {
            Ok(ciphertext) => if ciphertext@.len() > u32::MAX {
                stored == Err::<UserValue, Error>(Error::Crypto("ciphertext exceeds u32 length"))
            } else {
                stored matches Ok(bytes) && bytes@ == framed(ciphertext@)
            },
            Err(error) => stored == Err::<UserValue, Error>(error),
        },
{
    let ciphertext = match encrypted {
        Ok(ciphertext) => ciphertext,
        Err(error) => return Err(error),
    };
    let len: u64 = ciphertext.len() as u64;
    if len > u32::MAX as u64 {
        return Err(Error::Crypto("ciphertext exceeds u32 length"));
    }
    let mut stored: Vec<u8> = Vec::new();
    append_bytes(&mut stored, VALUE_ENCRYPTION_MAGIC.as_bytes());
    append_be_bytes(&mut stored, len, CIPHERTEXT_LEN_LEN);
    append_bytes(&mut stored, ciphertext.as_slice());
    assert(stored@ =~= framed(ciphertext@));
    Ok(stored)
}

/// Finds the ciphertext in a stored value.
///
/// # Errors
///
/// Returns an error if the value does not begin with the marker, or its length
/// is missing or wrong.
pub fn parse_stored_ciphertext(stored: &[u8]) -> (ciphertext: Result<&[u8], Error>)
    ensures
        match ciphertext {
            Ok(bytes) => unframed(stored@) == Ok::<Seq<u8>, Error>(bytes@),
            Err(error) => unframed(stored@) == Err::<Seq<u8>, Error>(error),
        },
{
    let magic = VALUE_ENCRYPTION_MAGIC.as_bytes();
    let ghost prefix = encode_utf8(VALUE_ENCRYPTION_MAGIC@);
    if stored.len() < magic.len() || !bytes_equal(
        vstd::slice::slice_subrange(stored, 0, magic.len()),
        magic,
    ) {
        assert(stored@.len() >= prefix.len() ==> stored@.subrange(0, prefix.len() as int)
            =~= stored@.take(prefix.len() as int));
        return Err(Error::Crypto("encrypted value marker missing"));
    }
    assert(stored@.subrange(0, prefix.len() as int) =~= stored@.take(prefix.len() as int));
    let rest = vstd::slice::slice_subrange(stored, magic.len(), stored.len());
    assert(rest@ =~= stored@.skip(prefix.len() as int));
    if rest.len() < CIPHERTEXT_LEN_LEN {
        return Err(Error::Crypto("encrypted value length missing"));
    }
    let len_bytes = vstd::slice::slice_subrange(rest, 0, CIPHERTEXT_LEN_LEN);
    assert(len_bytes@ =~= rest@.take(CIPHERTEXT_LEN_LEN as int));
    let len: u64 = read_be_bytes(len_bytes);
    let ciphertext = vstd::slice::slice_subrange(rest, CIPHERTEXT_LEN_LEN, rest.len());
    assert(ciphertext@ =~= rest@.skip(CIPHERTEXT_LEN_LEN as int));
    if ciphertext.len() as u64 != len {
        return Err(Error::Crypto("encrypted value length mismatch"));
    }
    Ok(ciphertext)
}

/// What was framed is found again.
pub proof fn lemma_unframed_inverts_framed(ciphertext: Seq<u8>)
    requires
        ciphertext.len() <= u32::MAX,
    ensures
        unframed(framed(ciphertext)) == Ok::<Seq<u8>, Error>(ciphertext),
{
    let magic = encode_utf8(VALUE_ENCRYPTION_MAGIC@);
    let len_bytes = be_bytes(ciphertext.len(), CIPHERTEXT_LEN_LEN as nat);
    let stored = framed(ciphertext);
    lemma_be_bytes_len(ciphertext.len(), CIPHERTEXT_LEN_LEN as nat);
    reveal_with_fuel(pow256, 5);
    lemma_be_round_trip(ciphertext.len(), CIPHERTEXT_LEN_LEN as nat);
    assert(stored.take(magic.len() as int) =~= magic);
    let rest = stored.skip(magic.len() as int);
    assert(rest =~= len_bytes + ciphertext);
    assert(rest.take(CIPHERTEXT_LEN_LEN as int) =~= len_bytes);
    assert(rest.skip(CIPHERTEXT_LEN_LEN as int) =~= ciphertext);
}

/// A value that does not begin with the marker is never taken for ciphertext.
pub proof fn lemma_unmarked_value_is_rejected(stored: Seq<u8>)
    requires
        !has_prefix(stored, encode_utf8(VALUE_ENCRYPTION_MAGIC@)),
    ensures
        unframed(stored) == Err::<Seq<u8>, Error>(Error::Crypto("encrypted value marker missing")),
{
}

// ---------------------------------------------------------------------------
// Encryption of values
// ---------------------------------------------------------------------------
/// Encryption of the values of one secure keyspace.
pub struct ValueEncryption<C> {
    logical_keyspace: String,
    config: EncryptionConfig<C>,
}

impl<C> Clone for ValueEncryption<C> {
    fn clone(&self) -> (copy: Self)
        ensures
            copy == *self,
    {
        ValueEncryption {
            logical_keyspace: self.logical_keyspace.clone(),
            config: self.config.clone(),
        }
    }
}

impl<C> ValueEncryption<C> {
    /// The logical name of the keyspace.
    pub closed spec fn keyspace(self) -> Seq<char> {
        self.logical_keyspace@
    }

    /// The encryption configuration of the keyspace.
    pub closed spec fn config(self) -> EncryptionConfig<C> {
        self.config
    }

    /// Whether a provider is told of this keyspace and of the key `key`.
    pub open spec fn tells(self, context: CryptoContext<'_>, key: Seq<u8>) -> bool {
        &&& context.keyspace@ == self.keyspace()
        &&& context.key@ == key
        &&& context.scope == self.config().scope
    }

    /// Creates the encryption of a keyspace.
    pub fn new(logical_keyspace: &str, config: EncryptionConfig<C>) -> (encryption: Self)
        ensures
            encryption.keyspace() == logical_keyspace@,
            encryption.config() == config,
    {
        ValueEncryption { logical_keyspace: logical_keyspace.to_owned(), config }
    }

    fn context<'a>(&'a self, encoded_key: &'a [u8]) -> (context: CryptoContext<'a>)
        ensures
            self.tells(context, encoded_key@),
    {
        CryptoContext {
            keyspace: self.logical_keyspace.as_str(),
            key: encoded_key,
            scope: self.config.scope,
        }
    }
}

impl<C: CryptoProvider> ValueEncryption<C> {
    /// Whether encrypting `value` under `key` can give `stored`: the provider
    /// encrypts the value in the context of the key, and its ciphertext is
    /// framed.
    pub open spec fn encrypts(
        self,
        key: Seq<u8>,
        value: Seq<u8>,
        stored: Result<Seq<u8>, Error>,
    ) -> bool {
        exists|context: CryptoContext<'_>, plaintext: &[u8], encrypted: Result<Vec<u8>, Error>|
            {
                &&& #[trigger] call_ensures(
                    C::encrypt,
                    (&self.config().provider(), context, plaintext),
                    encrypted,
                )
                &&& self.tells(context, key)
                &&& plaintext@ == value
                &&& match encrypted {
                    Ok(ciphertext) => if ciphertext@.len() > u32::MAX {
                        stored == Err::<Seq<u8>, Error>(
                            Error::Crypto("ciphertext exceeds u32 length"),
                        )
                    } else {
                        stored == Ok::<Seq<u8>, Error>(framed(ciphertext@))
                    },
                    Err(error) => stored == Err::<Seq<u8>, Error>(error),
                }
            }
    }

    /// Whether decrypting `stored` under `key` can give `value`: a malformed
    /// stored form is refused, and of any other the provider decrypts the
    /// ciphertext in the context of the key.
    pub open spec fn decrypts(
        self,
        key: Seq<u8>,
        stored: Seq<u8>,
        value: Result<Seq<u8>, Error>,
    ) -> bool {
        match unframed(stored) {
            Err(error) => value == Err::<Seq<u8>, Error>(error),
            Ok(ciphertext) => exists|
                context: CryptoContext<'_>,
                bytes: &[u8],
                decrypted: Result<Vec<u8>, Error>,
            |
                {
                    &&& #[trigger] call_ensures(
                        C::decrypt,
                        (&self.config().provider(), context, bytes),
                        decrypted,
                    )
                    &&& self.tells(context, key)
                    &&& bytes@ == ciphertext
                    &&& value == bytes_outcome(decrypted)
                },
        }
    }

    /// Encrypts a value for storage under an encoded key.
    ///
    /// # Errors
    ///
    /// Returns the provider's error, or an error if the ciphertext is too long
    /// for its length to be recorded.
    pub fn encrypt_value(&self, encoded_key: &[u8], value: UserValue) -> (stored: Result<
        UserValue,
        Error,
    >)
        ensures
            self.encrypts(encoded_key@, value@, bytes_outcome(stored)),
    {
        let context = self.context(encoded_key);
        let plaintext = value.as_slice();
        let encrypted = self.config.provider.encrypt(context, plaintext);
        assert(call_ensures(
            C::encrypt,
            (&self.config().provider(), context, plaintext),
            encrypted,
        ));
        frame_ciphertext(encrypted)
    }

    /// Decrypts a value that was stored under an encoded key.
    ///
    /// # Errors
    ///
    /// Returns an error if the stored value is not framed ciphertext, or the
    /// provider's error.
    pub fn decrypt_value(&self, encoded_key: &[u8], stored: UserValue) -> (value: Result<
        UserValue,
        Error,
    >)
        ensures
            self.decrypts(encoded_key@, stored@, bytes_outcome(value)),
    {
        let ciphertext = match parse_stored_ciphertext(stored.as_slice()) {
            Ok(ciphertext) => ciphertext,
            Err(error) => return Err(error),
        };
        let context = self.context(encoded_key);
        let decrypted = self.config.provider.decrypt(context, ciphertext);
        assert(call_ensures(
            C::decrypt,
            (&self.config().provider(), context, ciphertext),
            decrypted,
        ));
        decrypted
    }
}

/// Whether storing `value` under `key` can store `stored`.
pub open spec fn maybe_encrypts<C: CryptoProvider>(
    encryption: Option<ValueEncryption<C>>,
    key: Seq<u8>,
    value: Seq<u8>,
    stored: Result<Seq<u8>, Error>,
) -> bool {
    match encryption {
        Some(encryption) => encryption.encrypts(key, value, stored),
        None => stored == Ok::<Seq<u8>, Error>(value),
    }
}

/// Whether reading `stored` under `key` can give `value`.
pub open spec fn maybe_decrypts<C: CryptoProvider>(
    encryption: Option<ValueEncryption<C>>,
    key: Seq<u8>,
    stored: Seq<u8>,
    value: Result<Seq<u8>, Error>,
) -> bool {
    match encryption {
        Some(encryption) => encryption.decrypts(key, stored, value),
        None => value == Ok::<Seq<u8>, Error>(stored),
    }
}

/// Encrypts a value if the keyspace is encrypted, and keeps it otherwise.
///
/// # Errors
///
/// Returns an error if encryption fails.
pub fn maybe_encrypt_value<C: CryptoProvider>(
    encryption: &Option<ValueEncryption<C>>,
    encoded_key: &[u8],
    value: UserValue,
) -> (stored: Result<UserValue, Error>)
    ensures
        maybe_encrypts(*encryption, encoded_key@, value@, bytes_outcome(stored)),
{
    match encryption {
        Some(encryption) => encryption.encrypt_value(encoded_key, value),
        None => Ok(value),
    }
}

/// Decrypts a stored value if the keyspace is encrypted, and keeps it
/// otherwise.
///
/// # Errors
///
/// Returns an error if decryption fails.
pub fn maybe_decrypt_entry<C: CryptoProvider>(
    encryption: &Option<ValueEncryption<C>>,
    encoded_key: &[u8],
    value: UserValue,
) -> (plaintext: Result<UserValue, Error>)
    ensures
        maybe_decrypts(*encryption, encoded_key@, value@, bytes_outcome(plaintext)),
{
    match encryption {
        Some(encryption) => encryption.decrypt_value(encoded_key, value),
        None => Ok(value),
    }
}

/// Whether a provider decrypts, in the same context, whatever it encrypted.
pub open spec fn provider_inverts<C: CryptoProvider>(provider: C) -> bool {
    forall|
        written: CryptoContext<'_>,
        plaintext: &[u8],
        ciphertext: Vec<u8>,
        read: CryptoContext<'_>,
        bytes: &[u8],
        decrypted: Result<Vec<u8>, Error>,
    |
        {
            &&& #[trigger] call_ensures(
                C::encrypt,
                (&provider, written, plaintext),
                Ok::<Vec<u8>, Error>(ciphertext),
            )
            &&& #[trigger] call_ensures(C::decrypt, (&provider, read, bytes), decrypted)
            &&& written.keyspace@ == read.keyspace@
            &&& written.key@ == read.key@
            &&& written.scope == read.scope
            &&& bytes@ == ciphertext@
        } ==> bytes_outcome(decrypted) == Ok::<Seq<u8>, Error>(plaintext@)
}

/// What was stored under a key is read back under that key, if the provider
/// decrypts what it encrypted.
pub proof fn lemma_read_inverts_write<C: CryptoProvider>(
    encryption: Option<ValueEncryption<C>>,
    key: Seq<u8>,
    value: Seq<u8>,
    stored: Seq<u8>,
    read: Result<Seq<u8>, Error>,
)
    requires
        encryption matches Some(encryption) ==> provider_inverts(encryption.config().provider()),
        maybe_encrypts(encryption, key, value, Ok(stored)),
        maybe_decrypts(encryption, key, stored, read),
    ensures
        read == Ok::<Seq<u8>, Error>(value),
{
    if let Some(encryption) = encryption {
        let provider = encryption.config().provider();
        let (context, plaintext, encrypted) = choose|
            context: CryptoContext<'_>,
            plaintext: &[u8],
            encrypted: Result<Vec<u8>, Error>,
        |
            {
                &&& #[trigger] call_ensures(C::encrypt, (&provider, context, plaintext), encrypted)
                &&& encryption.tells(context, key)
                &&& plaintext@ == value
                &&& match encrypted {
                    Ok(ciphertext) => if ciphertext@.len() > u32::MAX {
                        Ok::<Seq<u8>, Error>(stored) == Err::<Seq<u8>, Error>(
                            Error::Crypto("ciphertext exceeds u32 length"),
                        )
                    } else {
                        Ok::<Seq<u8>, Error>(stored) == Ok::<Seq<u8>, Error>(framed(ciphertext@))
                    },
                    Err(error) => Ok::<Seq<u8>, Error>(stored) == Err::<Seq<u8>, Error>(error),
                }
            };
        let ciphertext = encrypted->Ok_0;
        lemma_unframed_inverts_framed(ciphertext@);
        let (again, bytes, decrypted) = choose|
            again: CryptoContext<'_>,
            bytes: &[u8],
            decrypted: Result<Vec<u8>, Error>,
        |
            {
                &&& #[trigger] call_ensures(C::decrypt, (&provider, again, bytes), decrypted)
                &&& encryption.tells(again, key)
                &&& bytes@ == ciphertext@
                &&& read == bytes_outcome(decrypted)
            };
        assert(encrypted == Ok::<Vec<u8>, Error>(ciphertext));
    }
}

/// A result with its bytes as a mathematical value.
pub open spec fn bytes_outcome(outcome: Result<Vec<u8>, Error>) -> Result<Seq<u8>, Error> {
    match outcome {
        Ok(bytes) => Ok(bytes@),
        Err(error) => Err(error),
    }
}

} // verus!
