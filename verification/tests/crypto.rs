use secure_keyspaces::crypto::{
    frame_ciphertext, maybe_decrypt_entry, maybe_encrypt_value, parse_stored_ciphertext,
    ValueEncryption, VALUE_ENCRYPTION_MAGIC,
};
use secure_keyspaces::{
    CryptoContext, CryptoProvider, EncryptionConfig, EncryptionScope, Error, NoEncryption,
    RetentionPolicy, SecureKeyspaceOptions,
};

#[derive(Clone)]
struct XorCryptoProvider {
    key: u8,
}

impl CryptoProvider for XorCryptoProvider {
    fn encrypt(&self, _context: CryptoContext<'_>, plaintext: &[u8]) -> Result<Vec<u8>, Error> {
        Ok(plaintext.iter().map(|byte| byte ^ self.key).collect())
    }

    fn decrypt(&self, context: CryptoContext<'_>, ciphertext: &[u8]) -> Result<Vec<u8>, Error> {
        self.encrypt(context, ciphertext)
    }
}

fn xor_config(key: u8) -> EncryptionConfig<XorCryptoProvider> {
    EncryptionConfig::new(XorCryptoProvider { key }, EncryptionScope::Value)
}

#[test]
fn value_encryption_roundtrips_with_marker() -> Result<(), Error> {
    let encryption = ValueEncryption::new("events", xor_config(0x5a));
    let encrypted = encryption.encrypt_value(b"key", b"plaintext".to_vec())?;

    assert_ne!(encrypted, b"plaintext");
    assert!(encrypted.starts_with(VALUE_ENCRYPTION_MAGIC.as_bytes()));
    assert_eq!(
        b"plaintext".to_vec(),
        encryption.decrypt_value(b"key", encrypted)?,
    );

    Ok(())
}

#[test]
fn stored_form_is_marker_length_ciphertext() {
    let mut expected = b"fjall:secure:v1:".to_vec();
    expected.extend([0, 0, 0, 3, 7, 8, 9]);

    assert_eq!(Ok(expected.clone()), frame_ciphertext(Ok(vec![7, 8, 9])));
    assert_eq!(Ok([7, 8, 9].as_slice()), parse_stored_ciphertext(&expected));
    assert_eq!(
        Err(Error::Crypto("no key")),
        frame_ciphertext(Err(Error::Crypto("no key"))),
    );
}

#[test]
fn malformed_stored_forms_are_rejected() {
    let marked = |tail: &[u8]| {
        let mut stored = b"fjall:secure:v1:".to_vec();
        stored.extend(tail);
        stored
    };
    let error = |stored: Vec<u8>| parse_stored_ciphertext(&stored).map(|c| c.to_vec());

    assert_eq!(
        Err(Error::Crypto("encrypted value marker missing")),
        error(b"plaintext".to_vec()),
    );
    assert_eq!(
        Err(Error::Crypto("encrypted value marker missing")),
        error(b"fjall:secure:v2:\0\0\0\0".to_vec()),
    );
    assert_eq!(
        Err(Error::Crypto("encrypted value length missing")),
        error(marked(&[0, 0, 0])),
    );
    assert_eq!(
        Err(Error::Crypto("encrypted value length mismatch")),
        error(marked(&[0, 0, 0, 2, 9])),
    );
    assert_eq!(
        Err(Error::Crypto("encrypted value length mismatch")),
        error(marked(&[0, 0, 0, 0, 9])),
    );
    assert_eq!(Ok(vec![]), error(marked(&[0, 0, 0, 0])));

    let encryption = ValueEncryption::new("events", xor_config(1));
    assert_eq!(
        Err(Error::Crypto("encrypted value marker missing")),
        encryption.decrypt_value(b"key", b"plaintext".to_vec()),
    );
}

struct ContextProvider;

impl CryptoProvider for ContextProvider {
    fn encrypt(&self, context: CryptoContext<'_>, plaintext: &[u8]) -> Result<Vec<u8>, Error> {
        let mut out = format!("{}/{:?}/", context.keyspace, context.scope).into_bytes();
        out.extend(context.key);
        out.push(b'/');
        out.extend(plaintext);
        Ok(out)
    }

    fn decrypt(&self, context: CryptoContext<'_>, ciphertext: &[u8]) -> Result<Vec<u8>, Error> {
        let prefix = self.encrypt(context, b"")?;
        match ciphertext.strip_prefix(prefix.as_slice()) {
            Some(plaintext) => Ok(plaintext.to_vec()),
            None => Err(Error::Crypto("wrong context")),
        }
    }
}

#[test]
fn providers_are_told_keyspace_key_and_scope() -> Result<(), Error> {
    let config = EncryptionConfig::new(ContextProvider, EncryptionScope::Keyspace);
    let encryption = ValueEncryption::new("events", config);
    let stored = encryption.encrypt_value(b"k1", b"value".to_vec())?;

    assert_eq!(
        Ok(b"events/Keyspace/k1/value".as_slice()),
        parse_stored_ciphertext(&stored),
    );
    assert_eq!(
        Ok(b"value".to_vec()),
        encryption.clone().decrypt_value(b"k1", stored.clone()),
    );
    assert_eq!(
        Err(Error::Crypto("wrong context")),
        encryption.decrypt_value(b"k2", stored),
    );

    Ok(())
}

#[test]
fn unencrypted_keyspaces_store_values_as_they_are() {
    let none: Option<ValueEncryption<NoEncryption>> = None;

    assert_eq!(
        Ok(b"value".to_vec()),
        maybe_encrypt_value(&none, b"key", b"value".to_vec()),
    );
    assert_eq!(
        Ok(b"value".to_vec()),
        maybe_decrypt_entry(&none, b"key", b"value".to_vec()),
    );

    let some = Some(ValueEncryption::new("events", xor_config(0xff)));
    let stored = maybe_encrypt_value(&some, b"key", vec![0x0f]);
    assert_eq!(
        Ok([0xf0].as_slice()),
        parse_stored_ciphertext(&stored.clone().unwrap()),
    );
    assert_eq!(Ok(vec![0x0f]), maybe_decrypt_entry(&some, b"key", stored.unwrap()));
}

#[test]
fn options_collect_what_is_set() {
    let retention = RetentionPolicy {
        max_versions: Some(3),
        ttl: None,
    };
    let options = SecureKeyspaceOptions::<NoEncryption, u8>::default();
    assert_eq!(0, options.create_options);
    assert!(options.encryption.is_none());
    assert_eq!(None, options.retention);

    let options = options
        .with_create_options("raw")
        .with_encryption(xor_config(1))
        .with_retention(retention)
        .clone();
    assert_eq!("raw", options.create_options);
    assert_eq!(
        Some(EncryptionScope::Value),
        options.encryption.map(|config| config.scope),
    );
    assert_eq!(Some(retention), options.retention);
}

#[test]
fn absent_encryption_passes_bytes_through() {
    let context = CryptoContext {
        keyspace: "events",
        key: b"key",
        scope: EncryptionScope::Value,
    };

    assert_eq!(Ok(b"value".to_vec()), NoEncryption.encrypt(context, b"value"));
    assert_eq!(Ok(b"value".to_vec()), NoEncryption.decrypt(context, b"value"));
}
