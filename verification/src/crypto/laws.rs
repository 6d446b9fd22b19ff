//! Laws of value encryption: what is stored, and what providers are told.

use vstd::prelude::*;
use vstd::utf8::encode_utf8;

use crate::crypto::{
    bytes_outcome, framed, lemma_unframed_inverts_framed, maybe_decrypts, maybe_encrypts, unframed,
    CryptoContext, CryptoProvider, ValueEncryption,
};
use crate::error::Error;
use crate::order::{
    be_bytes, lemma_be_bytes_len, lemma_be_round_trip, lemma_be_value_of_four,
    lemma_be_value_round_trip, pow256,
};

verus! {

/// A ciphertext is stored behind the text `fjall:secure:v1:` and its length in
/// four bytes, the most significant first.
pub proof fn lemma_stored_layout(ciphertext: Seq<u8>)
    requires
        ciphertext.len() <= 0xffff_ffff,
    ensures
        ({
            let magic = encode_utf8("fjall:secure:v1:"@);
            let stored = framed(ciphertext);
            let len = stored.subrange(magic.len() as int, magic.len() as int + 4);
            &&& stored == magic + len + ciphertext
            &&& ciphertext.len() == len[0] * 0x100_0000 + len[1] * 0x1_0000 + len[2] * 0x100
                + len[3]
        }),
{
    let magic = encode_utf8("fjall:secure:v1:"@);
    let len = be_bytes(ciphertext.len(), 4);
    let stored = framed(ciphertext);
    lemma_be_bytes_len(ciphertext.len(), 4);
    reveal_with_fuel(pow256, 5);
    lemma_be_round_trip(ciphertext.len(), 4);
    lemma_be_value_of_four(len);
    assert(stored.subrange(magic.len() as int, magic.len() as int + 4) =~= len);
    assert(stored =~= magic + len + ciphertext);
}

/// Only stored ciphertexts are taken for such: a ciphertext is found in a value
/// exactly if the value is the stored form of that ciphertext, and of one no
/// longer than its length can say.
pub proof fn lemma_stored_form_is_exact(stored: Seq<u8>, ciphertext: Seq<u8>)
    ensures
        unframed(stored) == Ok::<Seq<u8>, Error>(ciphertext) <==> stored == framed(ciphertext)
            && ciphertext.len() <= 0xffff_ffff,
        unframed(stored) matches Err(error) ==> error is Crypto,
{
    let magic = encode_utf8("fjall:secure:v1:"@);
    if stored == framed(ciphertext) && ciphertext.len() <= 0xffff_ffff {
        lemma_unframed_inverts_framed(ciphertext);
    }
    if unframed(stored) == Ok::<Seq<u8>, Error>(ciphertext) {
        let rest = stored.skip(magic.len() as int);
        let len = rest.take(4);
        lemma_be_value_round_trip(len);
        reveal_with_fuel(pow256, 5);
        assert(stored =~= magic + rest);
        assert(rest =~= len + ciphertext);
        assert(stored =~= framed(ciphertext));
    }
}

/// What is stored in an encrypted keyspace is the framed answer of the provider,
/// which was told the logical keyspace, the encoded key and the scope, and given
/// the value; if the provider failed, or the ciphertext is longer than its
/// length can say, that is the outcome.
pub proof fn lemma_encryption_asks_the_provider<C: CryptoProvider>(
    encryption: ValueEncryption<C>,
    key: Seq<u8>,
    value: Seq<u8>,
    stored: Result<Seq<u8>, Error>,
)
    requires
        maybe_encrypts(Some(encryption), key, value, stored),
    ensures
        exists|context: CryptoContext<'_>, plaintext: &[u8], encrypted: Result<Vec<u8>, Error>|
            {
                &&& #[trigger] call_ensures(
                    C::encrypt,
                    (&encryption.config().provider(), context, plaintext),
                    encrypted,
                )
                &&& context.keyspace@ == encryption.keyspace()
                &&& context.key@ == key
                &&& context.scope == encryption.config().scope
                &&& plaintext@ == value
                &&& match (encrypted, stored) {
                    (Ok(ciphertext), Ok(bytes)) => ciphertext@.len() <= 0xffff_ffff && bytes
                        == framed(ciphertext@),
                    (Ok(ciphertext), Err(error)) => ciphertext@.len() > 0xffff_ffff && error
                        == Error::Crypto("ciphertext exceeds u32 length"),
                    (Err(failure), Err(error)) => error == failure,
                    (Err(_), Ok(_)) => false,
                }
            },
{
    let (context, plaintext, encrypted) = choose|
        context: CryptoContext<'_>,
        plaintext: &[u8],
        encrypted: Result<Vec<u8>, Error>,
    |
        {
            &&& #[trigger] call_ensures(
                C::encrypt,
                (&encryption.config().provider(), context, plaintext),
                encrypted,
            )
            &&& encryption.tells(context, key)
            &&& plaintext@ == value
            &&& match encrypted {
                Ok(ciphertext) => if ciphertext@.len() > u32::MAX {
                    stored == Err::<Seq<u8>, Error>(Error::Crypto("ciphertext exceeds u32 length"))
                } else {
                    stored == Ok::<Seq<u8>, Error>(framed(ciphertext@))
                },
                Err(error) => stored == Err::<Seq<u8>, Error>(error),
            }
        };
    assert(call_ensures(
        C::encrypt,
        (&encryption.config().provider(), context, plaintext),
        encrypted,
    ));
}

/// What is read of a stored ciphertext in an encrypted keyspace is the answer of
/// the provider, which was told the logical keyspace, the encoded key and the
/// scope, and given that ciphertext.
pub proof fn lemma_decryption_asks_the_provider<C: CryptoProvider>(
    encryption: ValueEncryption<C>,
    key: Seq<u8>,
    ciphertext: Seq<u8>,
    value: Result<Seq<u8>, Error>,
)
    requires
        ciphertext.len() <= 0xffff_ffff,
        maybe_decrypts(Some(encryption), key, framed(ciphertext), value),
    ensures
        exists|context: CryptoContext<'_>, bytes: &[u8], decrypted: Result<Vec<u8>, Error>|
            {
                &&& #[trigger] call_ensures(
                    C::decrypt,
                    (&encryption.config().provider(), context, bytes),
                    decrypted,
                )
                &&& context.keyspace@ == encryption.keyspace()
                &&& context.key@ == key
                &&& context.scope == encryption.config().scope
                &&& bytes@ == ciphertext
                &&& match (decrypted, value) {
                    (Ok(plaintext), Ok(shown)) => shown == plaintext@,
                    (Err(failure), Err(error)) => error == failure,
                    _ => false,
                }
            },
{
    lemma_unframed_inverts_framed(ciphertext);
    let (context, bytes, decrypted) = choose|
        context: CryptoContext<'_>,
        bytes: &[u8],
        decrypted: Result<Vec<u8>, Error>,
    |
        {
            &&& #[trigger] call_ensures(
                C::decrypt,
                (&encryption.config().provider(), context, bytes),
                decrypted,
            )
            &&& encryption.tells(context, key)
            &&& bytes@ == ciphertext
            &&& value == bytes_outcome(decrypted)
        };
    assert(call_ensures(
        C::decrypt,
        (&encryption.config().provider(), context, bytes),
        decrypted,
    ));
}

/// In an encrypted keyspace nothing is read of a value that is no stored
/// ciphertext, whatever the provider would say.
pub proof fn lemma_foreign_values_are_not_read<C: CryptoProvider>(
    encryption: ValueEncryption<C>,
    key: Seq<u8>,
    stored: Seq<u8>,
    value: Result<Seq<u8>, Error>,
)
    requires
        forall|ciphertext: Seq<u8>|
            stored == #[trigger] framed(ciphertext) ==> ciphertext.len() > 0xffff_ffff,
        maybe_decrypts(Some(encryption), key, stored, value),
    ensures
        value matches Err(error) && error is Crypto,
{
    if let Ok(ciphertext) = unframed(stored) {
        lemma_stored_form_is_exact(stored, ciphertext);
    } else {
        lemma_stored_form_is_exact(stored, Seq::empty());
    }
}

/// In a keyspace without encryption values are stored and read as they are.
pub proof fn lemma_plain_values_are_kept<C: CryptoProvider>(
    key: Seq<u8>,
    value: Seq<u8>,
    outcome: Result<Seq<u8>, Error>,
)
    ensures
        maybe_encrypts(None::<ValueEncryption<C>>, key, value, outcome) <==> outcome == Ok::<
            Seq<u8>,
            Error,
        >(value),
        maybe_decrypts(None::<ValueEncryption<C>>, key, value, outcome) <==> outcome == Ok::<
            Seq<u8>,
            Error,
        >(value),
{
}

/// A marked value without its length, or with another length than that of what
/// follows, is refused with an error that says so.
pub proof fn lemma_length_errors(tail: Seq<u8>)
    ensures
        ({
            let stored = encode_utf8("fjall:secure:v1:"@) + tail;
            &&& tail.len() < 4 ==> unframed(stored) == Err::<Seq<u8>, Error>(
                Error::Crypto("encrypted value length missing"),
            )
            &&& tail.len() >= 4 && tail[0] * 0x100_0000 + tail[1] * 0x1_0000 + tail[2] * 0x100
                + tail[3] != tail.len() - 4 ==> unframed(stored) == Err::<Seq<u8>, Error>(
                Error::Crypto("encrypted value length mismatch"),
            )
        }),
{
    let magic = encode_utf8("fjall:secure:v1:"@);
    let stored = magic + tail;
    assert(stored.take(magic.len() as int) =~= magic);
    assert(stored.skip(magic.len() as int) =~= tail);
    if tail.len() >= 4 {
        lemma_be_value_of_four(tail.take(4));
    }
}

} // verus!
