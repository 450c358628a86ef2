//! The secure channel: a handshake that authenticates both ends, and the
//! encryption of the traffic that follows it.
//!
//! The handshake takes three messages. Each side contributes an ephemeral
//! and a static key; the secrets the keys agree on are mixed into a chain,
//! and everything said is mixed into a running transcript hash:
//!
//! ```text
//! initiator                                   responder
//!     ---- e ------------------------------------>
//!     <--- e, ee, encrypted s, es, proof ---------
//!     ---- encrypted s, se, proof --------------->
//! ```
//!
//! A proof is an empty payload, encrypted under the chain as it stands
//! after the sender's static key was mixed in: only the holder of that
//! static key can make it. A check that fails puts the channel into
//! [`ChannelState::Failed`] for good. The message that completes the
//! handshake splits the chain into two session keys, one for each direction.
//!
//! All secrets stay in the vault. The channel holds handles, and asks the
//! vault to erase what it no longer needs.

use crate::codec::{append_bytes, slice_bytes};
use crate::error::Error;
use crate::message::{
    copy_bytes, message_views, Address, AddressView, Message, MessageType, MessageView, Route,
};
use crate::queue::{dropped_after, enqueued, Enqueue, MemQueue};
use crate::traits::{Poll, ProcessMessage};
use crate::vault::{
    SecretAttributes, SecretKeyHandle, SecretPersistence, SecretType, Vault,
    CURVE25519_SECRET_LENGTH,
};
use vstd::prelude::*;
use vstd::string::StringSliceAdditionalSpecFns;

verus! {

/// Where a channel stands.
#[derive(Clone, Copy, Debug, PartialEq, Eq, Structural)]
pub enum ChannelState {
    /// Nothing has happened yet.
    Idle,
    /// The first handshake message was sent.
    Initiating,
    /// The peer's keys are known; the last handshake message is awaited.
    AwaitingFinal,
    /// The handshake is complete: traffic can be encrypted and decrypted.
    Established,
    /// The channel was closed in good order.
    Closed,
    /// A check failed. The channel does nothing more.
    Failed,
}

/// What a handshake message did to the channel.
#[derive(Clone, Copy, Debug, PartialEq, Eq, Structural)]
pub enum HandshakeSignal {
    /// The handshake goes on.
    Progress,
    /// The handshake is complete.
    Established,
    /// The handshake failed: the owner should give the channel up.
    Disconnect,
}

/// Whether a channel may go from `from` to `to` in one operation.
pub open spec fn steps_to(from: ChannelState, to: ChannelState) -> bool {
    match (from, to) {
        (ChannelState::Idle, ChannelState::Initiating) => true,
        (ChannelState::Idle, ChannelState::AwaitingFinal) => true,
        (ChannelState::Initiating, ChannelState::Established) => true,
        (ChannelState::AwaitingFinal, ChannelState::Established) => true,
        (ChannelState::Established, ChannelState::Closed) => true,
        (ChannelState::Idle, ChannelState::Failed) => true,
        (ChannelState::Initiating, ChannelState::Failed) => true,
        (ChannelState::AwaitingFinal, ChannelState::Failed) => true,
        (ChannelState::Established, ChannelState::Failed) => true,
        _ => false,
    }
}

/// The name of the handshake, with which every transcript starts.
pub fn protocol_name() -> (name: &'static str)
    ensures
        name@ == "ockam-xx-1"@,
        name.spec_bytes() == name_bytes(),
{
    "ockam-xx-1"
}

/// The bytes of the name of the handshake.
pub open spec fn name_bytes() -> Seq<u8> {
    "ockam-xx-1".spec_bytes()
}

/// The bytes of one field of a handshake message: its length in one byte, then its bytes.
pub open spec fn field_bytes(field: Seq<u8>) -> Seq<u8> {
    seq![field.len() as u8] + field
}

/// The field that starts at `at`, and where the bytes after it start.
pub open spec fn parse_field(bytes: Seq<u8>, at: int) -> Option<(Seq<u8>, int)> {
    if at + 1 > bytes.len() {
        None
    } else if at + 1 + bytes[at] > bytes.len() {
        None
    } else {
        Some((bytes.subrange(at + 1, at + 1 + bytes[at]), at + 1 + bytes[at]))
    }
}

/// The `count` fields that make up `bytes`, if `bytes` is made up of exactly that many.
pub open spec fn parse_fields(bytes: Seq<u8>, count: nat) -> Option<Seq<Seq<u8>>> {
    match parse_fields_from(bytes, count) {
        Some((fields, end)) => if end == bytes.len() {
            Some(fields)
        } else {
            None
        },
        None => None,
    }
}

/// The first `count` fields of `bytes`, and where the bytes after them start.
pub open spec fn parse_fields_from(bytes: Seq<u8>, count: nat) -> Option<(Seq<Seq<u8>>, int)>
    decreases count,
{
    if count == 0 {
        Some((Seq::empty(), 0))
    } else {
        match parse_fields_from(bytes, (count - 1) as nat) {
            None => None,
            Some((fields, next)) => match parse_field(bytes, next) {
                None => None,
                Some((field, end)) => Some((fields.push(field), end)),
            },
        }
    }
}

/// Appends a field to a handshake message. A field of more than 255 bytes does not fit.
pub fn push_field(out: &mut Vec<u8>, field: &[u8]) -> (fits: bool)
    ensures
        fits == (field@.len() <= 255),
        fits ==> final(out)@ == old(out)@ + field_bytes(field@),
        !fits ==> final(out)@ == old(out)@,
{
    if field.len() > 255 {
        return false;
    }
    out.push(field.len() as u8);
    append_bytes(out, field);
    true
}

/// Takes a handshake message apart into its `count` fields.
pub fn read_fields(bytes: &[u8], count: usize) -> (fields: Option<Vec<Vec<u8>>>)
    ensures
        match parse_fields(bytes@, count as nat) {
            Some(parsed) => fields is Some && field_views(fields->Some_0@) == parsed
                && parsed.len() == count,
            None => fields is None,
        },
{
    let mut fields: Vec<Vec<u8>> = Vec::new();
    let mut at: usize = 0;
    let mut i: usize = 0;
    while i < count
        invariant
            i <= count,
            at <= bytes.len(),
            fields.len() == i,
            parse_fields_from(bytes@, i as nat) is Some,
            (parse_fields_from(bytes@, i as nat)->Some_0).1 == at,
            (parse_fields_from(bytes@, i as nat)->Some_0).0.len() == i,
            forall|j: int|
                0 <= j < i ==> (#[trigger] fields@[j])@ == (parse_fields_from(
                    bytes@,
                    i as nat,
                )->Some_0).0[j],
        decreases count - i,
    {
        if bytes.len() - at < 1 {
            proof {
                lemma_fields_stop(bytes@, (i + 1) as nat, count as nat);
            }
            return None;
        }
        let len = bytes[at] as usize;
        if bytes.len() - at - 1 < len {
            proof {
                lemma_fields_stop(bytes@, (i + 1) as nat, count as nat);
            }
            return None;
        }
        let field = slice_bytes(bytes, at + 1, at + 1 + len);
        fields.push(field);
        at = at + 1 + len;
        i += 1;
    }
    if at != bytes.len() {
        return None;
    }
    assert(field_views(fields@) =~= (parse_fields_from(bytes@, count as nat)->Some_0).0);
    Some(fields)
}

/// Puts a handshake message together from its fields. A field of more than
/// 255 bytes does not fit a message.
pub fn write_fields(fields: &Vec<Vec<u8>>) -> (bytes: Option<Vec<u8>>)
    ensures
        match bytes {
            Some(written) => fields_fit(field_views(fields@)) && written@ == fields_bytes(
                field_views(fields@),
            ),
            None => !fields_fit(field_views(fields@)),
        },
{
    let mut bytes: Vec<u8> = Vec::new();
    let mut i: usize = 0;
    while i < fields.len()
        invariant
            i <= fields.len(),
            fields_fit(field_views(fields@).take(i as int)),
            bytes@ == fields_bytes(field_views(fields@).take(i as int)),
        decreases fields.len() - i,
    {
        if !push_field(&mut bytes, fields[i].as_slice()) {
            assert(field_views(fields@)[i as int].len() > 255);
            return None;
        }
        proof {
            let longer = field_views(fields@).take(i + 1);
            assert(longer.drop_last() =~= field_views(fields@).take(i as int));
            assert(longer.last() == fields@[i as int]@);
        }
        i += 1;
    }
    assert(field_views(fields@).take(fields@.len() as int) =~= field_views(fields@));
    Some(bytes)
}

/// Once the fields of a message cannot be read, neither can more of them.
proof fn lemma_fields_stop(bytes: Seq<u8>, short: nat, long: nat)
    requires
        short <= long,
        parse_fields_from(bytes, short) is None,
    ensures
        parse_fields_from(bytes, long) is None,
    decreases long,
{
    if short < long {
        lemma_fields_stop(bytes, short, (long - 1) as nat);
    }
}

/// What each field of a list holds.
pub open spec fn field_views(fields: Seq<Vec<u8>>) -> Seq<Seq<u8>> {
    Seq::new(fields.len(), |i: int| fields[i]@)
}

/// The bytes of a handshake message that is made up of `fields`.
pub open spec fn fields_bytes(fields: Seq<Seq<u8>>) -> Seq<u8>
    decreases fields.len(),
{
    if fields.len() == 0 {
        Seq::empty()
    } else {
        fields_bytes(fields.drop_last()) + field_bytes(fields.last())
    }
}

/// Whether every field of a list fits a handshake message.
pub open spec fn fields_fit(fields: Seq<Seq<u8>>) -> bool {
    forall|i: int| 0 <= i < fields.len() ==> (#[trigger] fields[i]).len() <= 255
}

/// The fields of a handshake message are read back as they were written,
/// whatever follows them.
proof fn lemma_fields_read_back(fields: Seq<Seq<u8>>, more: Seq<u8>)
    requires
        fields_fit(fields),
    ensures
        parse_fields_from(fields_bytes(fields) + more, fields.len()) == Some(
            (fields, fields_bytes(fields).len() as int),
        ),
    decreases fields.len(),
{
    if fields.len() > 0 {
        let front = fields.drop_last();
        let last = fields.last();
        let bytes = fields_bytes(fields) + more;
        let at = fields_bytes(front).len() as int;
        assert(bytes =~= fields_bytes(front) + (field_bytes(last) + more));
        lemma_fields_read_back(front, field_bytes(last) + more);
        assert(bytes[at] == last.len() as u8);
        assert(bytes.subrange(at + 1, at + 1 + last.len()) =~= last);
        assert(front.push(last) =~= fields);
    }
}

/// A handshake message that is made up of fields that fit is read back as those fields.
pub proof fn lemma_fields_round_trip(fields: Seq<Seq<u8>>)
    requires
        fields_fit(fields),
    ensures
        parse_fields(fields_bytes(fields), fields.len()) == Some(fields),
{
    lemma_fields_read_back(fields, Seq::empty());
    assert(fields_bytes(fields) + Seq::<u8>::empty() =~= fields_bytes(fields));
}

/// The running state of a handshake: the transcript hash, the chain, and
/// the key and nonce that the chain gave last.
struct Symmetric {
    transcript: Vec<u8>,
    mixed: Ghost<Seq<Seq<u8>>>,
    erased: Ghost<Set<SecretKeyHandle>>,
    chaining: Option<SecretKeyHandle>,
    key: Option<SecretKeyHandle>,
    nonce: u64,
}

/// The secret that a handle names, if there is a handle, as a set.
pub open spec fn held(secret: Option<SecretKeyHandle>) -> Set<SecretKeyHandle> {
    match secret {
        Some(handle) => set![handle],
        None => Set::empty(),
    }
}

/// Asks the vault to erase a secret, and takes note of it.
fn erase<V: Vault>(vault: &mut V, handle: SecretKeyHandle, erased: &mut Ghost<Set<SecretKeyHandle>>)
    ensures
        final(erased)@ == old(erased)@.insert(handle),
{
    vault.erase(handle);
    proof {
        erased@ = erased@.insert(handle);
    }
}

/// Erases a secret, if there is one, and forgets its handle.
fn discard<V: Vault>(
    vault: &mut V,
    secret: &mut Option<SecretKeyHandle>,
    erased: &mut Ghost<Set<SecretKeyHandle>>,
)
    ensures
        *final(secret) is None,
        final(erased)@ == old(erased)@.union(held(*old(secret))),
{
    if let Some(handle) = *secret {
        erase(vault, handle, erased);
        assert(erased@ =~= old(erased)@.union(held(*old(secret))));
    } else {
        assert(erased@ =~= old(erased)@.union(held(*old(secret))));
    }
    *secret = None;
}

/// What is hashed to mix `data` into a transcript: the transcript, then the data.
fn hash_input(transcript: &[u8], data: &[u8]) -> (input: Vec<u8>)
    ensures
        input@ == transcript@ + data@,
{
    let mut input = copy_bytes(transcript);
    append_bytes(&mut input, data);
    input
}

/// Takes the hash that the vault gave the name of the handshake: it is the
/// transcript, and only the name was mixed into it.
fn after_first_hash(symmetric: &mut Symmetric, hashed: Vec<u8>)
    ensures
        *final(symmetric) == (Symmetric {
            transcript: hashed,
            mixed: Ghost(seq![name_bytes()]),
            ..*old(symmetric)
        }),
{
    symmetric.transcript = hashed;
    proof {
        symmetric.mixed@ = seq![name_bytes()];
    }
}

/// Takes the hash that the vault gave the transcript followed by `data`: it
/// is the transcript, and `data` is the last of what was mixed in.
fn after_hash(symmetric: &mut Symmetric, data: &[u8], hashed: Vec<u8>)
    ensures
        *final(symmetric) == (Symmetric {
            transcript: hashed,
            mixed: Ghost(old(symmetric).mixed@.push(data@)),
            ..*old(symmetric)
        }),
{
    symmetric.transcript = hashed;
    proof {
        symmetric.mixed@ = symmetric.mixed@.push(data@);
    }
}

/// Starts the transcript afresh: it is the hash of the name of the
/// handshake, and only the name was mixed into it.
fn begin_transcript<V: Vault>(vault: &mut V, symmetric: &mut Symmetric)
    ensures
        final(symmetric).mixed@ == seq![name_bytes()],
        final(symmetric).erased == old(symmetric).erased,
        final(symmetric).chaining == old(symmetric).chaining,
        final(symmetric).key == old(symmetric).key,
        final(symmetric).nonce == old(symmetric).nonce,
{
    let name = protocol_name();
    let hashed = vault.hash(name.as_bytes());
    after_first_hash(symmetric, hashed);
}

/// Mixes `data` into the transcript: the transcript becomes the hash that
/// the vault gives the transcript followed by `data`, and `data` is the
/// last of what was mixed in.
fn mix_hash<V: Vault>(vault: &mut V, symmetric: &mut Symmetric, data: &[u8])
    ensures
        final(symmetric).mixed@ == old(symmetric).mixed@.push(data@),
        final(symmetric).erased == old(symmetric).erased,
        final(symmetric).chaining == old(symmetric).chaining,
        final(symmetric).key == old(symmetric).key,
        final(symmetric).nonce == old(symmetric).nonce,
{
    let input = hash_input(symmetric.transcript.as_slice(), data);
    let hashed = vault.hash(input.as_slice());
    after_hash(symmetric, data, hashed);
}

/// What the vault is asked to derive from, to mix `input` into the chain:
/// the chain as it stands, and `input`.
fn derive_with(symmetric: &Symmetric, input: SecretKeyHandle) -> (with: (
    Option<SecretKeyHandle>,
    Option<SecretKeyHandle>,
))
    ensures
        with == (symmetric.chaining, Some(input)),
{
    (symmetric.chaining, Some(input))
}

/// Takes what the vault derived from the chain and a secret that was mixed
/// in. The secret is erased in any case. On success the chain and the key
/// that stood are erased and replaced by the two that were derived, in that
/// order, and the nonce starts at 0. On failure nothing else changes.
fn after_derive<V: Vault>(
    vault: &mut V,
    symmetric: &mut Symmetric,
    input: SecretKeyHandle,
    derived: Result<(SecretKeyHandle, SecretKeyHandle), Error>,
) -> (mixed: Result<(), Error>)
    ensures
        match derived {
            Ok((chaining, key)) => mixed == Ok::<(), Error>(()) && *final(symmetric) == (Symmetric {
                chaining: Some(chaining),
                key: Some(key),
                nonce: 0,
                erased: Ghost(
                    old(symmetric).erased@.insert(input).union(held(old(symmetric).chaining)).union(
                        held(old(symmetric).key),
                    ),
                ),
                ..*old(symmetric)
            }),
            Err(error) => mixed == Err::<(), Error>(error) && *final(symmetric) == (Symmetric {
                erased: Ghost(old(symmetric).erased@.insert(input)),
                ..*old(symmetric)
            }),
        },
{
    erase(vault, input, &mut symmetric.erased);
    match derived {
        Ok((chaining, key)) => {
            discard(vault, &mut symmetric.chaining, &mut symmetric.erased);
            discard(vault, &mut symmetric.key, &mut symmetric.erased);
            symmetric.chaining = Some(chaining);
            symmetric.key = Some(key);
            symmetric.nonce = 0;
            Ok(())
        },
        Err(error) => Err(error),
    }
}

/// Mixes a secret into the chain: the chain moves on and gives a fresh key,
/// whose nonce starts at 0. The secret that was mixed in is erased, and so
/// are the chain and the key that were replaced.
fn mix_key<V: Vault>(vault: &mut V, symmetric: &mut Symmetric, input: SecretKeyHandle) -> (mixed:
    Result<(), Error>)
    ensures
        final(symmetric).transcript == old(symmetric).transcript,
        final(symmetric).mixed == old(symmetric).mixed,
        mixed is Ok ==> final(symmetric).chaining is Some && final(symmetric).key is Some
            && final(symmetric).nonce == 0 && final(symmetric).erased@
                == old(symmetric).erased@.insert(input).union(held(old(symmetric).chaining)).union(
            held(old(symmetric).key),
        ),
        mixed is Err ==> final(symmetric).chaining == old(symmetric).chaining
            && final(symmetric).key == old(symmetric).key && final(symmetric).nonce
                == old(symmetric).nonce && final(symmetric).erased@
                    == old(symmetric).erased@.insert(input),
{
    let (chaining, mixed_in) = derive_with(symmetric, input);
    let derived = vault.derive(chaining, mixed_in);
    after_derive(vault, symmetric, input, derived)
}

/// The key, the nonce and the associated data that the vault is asked to
/// encrypt or decrypt with next in the handshake: the key that the chain
/// gave last, its next nonce, and the transcript. There are none without a
/// key or with the nonces of the key used up.
fn cipher_with(symmetric: &Symmetric) -> (with: Result<(SecretKeyHandle, u64, &[u8]), Error>)
    ensures
        match with {
            Ok((key, nonce, associated)) => symmetric.key == Some(key) && nonce == symmetric.nonce
                && nonce < u64::MAX && associated@ == symmetric.transcript@,
            Err(error) => error == Error::HandshakeAuth && (symmetric.key is None
                || symmetric.nonce == u64::MAX),
        },
{
    match symmetric.key {
        Some(key) => if symmetric.nonce == u64::MAX {
            Err(Error::HandshakeAuth)
        } else {
            Ok((key, symmetric.nonce, symmetric.transcript.as_slice()))
        },
        None => Err(Error::HandshakeAuth),
    }
}

/// Takes what the vault made of a plaintext of the handshake: a ciphertext
/// uses up the nonce and is handed on as it is; a failure is handed on as
/// it is and uses up nothing.
fn after_seal(symmetric: &mut Symmetric, sealed: Result<Vec<u8>, Error>) -> (taken: Result<
    Vec<u8>,
    Error,
>)
    requires
        old(symmetric).nonce < u64::MAX,
    ensures
        taken == sealed,
        sealed is Ok ==> *final(symmetric) == (Symmetric {
            nonce: (old(symmetric).nonce + 1) as u64,
            ..*old(symmetric)
        }),
        sealed is Err ==> *final(symmetric) == *old(symmetric),
{
    if sealed.is_ok() {
        symmetric.nonce = symmetric.nonce + 1;
    }
    sealed
}

/// Takes what the vault made of a ciphertext of the handshake: a plaintext
/// uses up the nonce and is handed on as it is; a refusal is an
/// authentication failure and uses up nothing.
fn after_open(symmetric: &mut Symmetric, opened: Result<Vec<u8>, Error>) -> (taken: Result<
    Vec<u8>,
    Error,
>)
    requires
        old(symmetric).nonce < u64::MAX,
    ensures
        opened is Ok ==> taken == opened && *final(symmetric) == (Symmetric {
            nonce: (old(symmetric).nonce + 1) as u64,
            ..*old(symmetric)
        }),
        opened is Err ==> taken == Err::<Vec<u8>, Error>(Error::HandshakeAuth)
            && *final(symmetric) == *old(symmetric),
{
    match opened {
        Ok(plaintext) => {
            symmetric.nonce = symmetric.nonce + 1;
            Ok(plaintext)
        },
        Err(_) => Err(Error::HandshakeAuth),
    }
}

/// Encrypts `plaintext` under the current key, bound to the transcript, and
/// mixes the ciphertext into the transcript. Without a key, or with the
/// nonces of the key used up, nothing is encrypted.
fn encrypt_and_hash<V: Vault>(
    vault: &mut V,
    symmetric: &mut Symmetric,
    plaintext: &[u8],
) -> (sealed: Result<Vec<u8>, Error>)
    ensures
        final(symmetric).chaining == old(symmetric).chaining,
        final(symmetric).key == old(symmetric).key,
        final(symmetric).erased == old(symmetric).erased,
        old(symmetric).key is None || old(symmetric).nonce == u64::MAX ==> sealed == Err::<
            Vec<u8>,
            Error,
        >(Error::HandshakeAuth),
        sealed is Ok ==> old(symmetric).key is Some && final(symmetric).nonce
            == old(symmetric).nonce + 1 && final(symmetric).mixed@
                == old(symmetric).mixed@.push(sealed->Ok_0@),
        sealed is Err ==> *final(symmetric) == *old(symmetric),
{
    let made = match cipher_with(symmetric) {
        Ok((key, nonce, associated)) => vault.encrypt(key, nonce, associated, plaintext),
        Err(error) => {
            return Err(error);
        },
    };
    let ciphertext = after_seal(symmetric, made)?;
    mix_hash(vault, symmetric, ciphertext.as_slice());
    Ok(ciphertext)
}

/// Checks and decrypts `ciphertext` under the current key, bound to the
/// transcript, and mixes the ciphertext into the transcript. A ciphertext
/// that is not authentic is an authentication failure and changes nothing.
fn decrypt_and_hash<V: Vault>(
    vault: &mut V,
    symmetric: &mut Symmetric,
    ciphertext: &[u8],
) -> (opened: Result<Vec<u8>, Error>)
    ensures
        final(symmetric).chaining == old(symmetric).chaining,
        final(symmetric).key == old(symmetric).key,
        final(symmetric).erased == old(symmetric).erased,
        old(symmetric).key is None || old(symmetric).nonce == u64::MAX ==> opened is Err,
        opened is Ok ==> old(symmetric).key is Some && final(symmetric).nonce
            == old(symmetric).nonce + 1 && final(symmetric).mixed@
                == old(symmetric).mixed@.push(ciphertext@),
        opened is Err ==> opened->Err_0 == Error::HandshakeAuth && *final(symmetric)
            == *old(symmetric),
{
    let made = match cipher_with(symmetric) {
        Ok((key, nonce, associated)) => vault.decrypt(key, nonce, associated, ciphertext),
        Err(error) => {
            return Err(error);
        },
    };
    let plaintext = after_open(symmetric, made)?;
    mix_hash(vault, symmetric, ciphertext);
    Ok(plaintext)
}

/// The secret that the vault is asked to agree with: the one given. Without
/// one there is nothing to agree with.
fn agree_with(secret: Option<SecretKeyHandle>) -> (with: Result<SecretKeyHandle, Error>)
    ensures
        match secret {
            Some(handle) => with == Ok::<SecretKeyHandle, Error>(handle),
            None => with == Err::<SecretKeyHandle, Error>(Error::HandshakeAuth),
        },
{
    match secret {
        Some(handle) => Ok(handle),
        None => Err(Error::HandshakeAuth),
    }
}

/// Agrees on a secret with the peer and mixes it into the chain.
fn mix_agreement<V: Vault>(
    vault: &mut V,
    symmetric: &mut Symmetric,
    secret: Option<SecretKeyHandle>,
    peer_public_key: &[u8],
) -> (mixed: Result<(), Error>)
    ensures
        final(symmetric).transcript == old(symmetric).transcript,
        final(symmetric).mixed == old(symmetric).mixed,
        secret is None ==> mixed == Err::<(), Error>(Error::HandshakeAuth) && *final(symmetric)
            == *old(symmetric),
        old(symmetric).erased@.subset_of(final(symmetric).erased@),
        mixed is Ok ==> final(symmetric).chaining is Some && final(symmetric).key is Some
            && final(symmetric).nonce == 0 && held(old(symmetric).chaining).union(
            held(old(symmetric).key),
        ).subset_of(final(symmetric).erased@),
        mixed is Err ==> final(symmetric).chaining == old(symmetric).chaining
            && final(symmetric).key == old(symmetric).key && final(symmetric).nonce
                == old(symmetric).nonce,
{
    let own = agree_with(secret)?;
    match vault.diffie_hellman(own, peer_public_key) {
        Ok(agreed) => mix_key(vault, symmetric, agreed),
        Err(error) => Err(error),
    }
}

/// One secure channel and the vault it works with.
pub struct ChannelManager<V: Vault> {
    vault: V,
    channel: u32,
    owner: Address,
    state: ChannelState,
    identity: Option<SecretKeyHandle>,
    ephemeral: Option<SecretKeyHandle>,
    symmetric: Symmetric,
    remote_ephemeral: Vec<u8>,
    remote_static: Option<Vec<u8>>,
    send_key: Option<SecretKeyHandle>,
    receive_key: Option<SecretKeyHandle>,
    send_nonce: u64,
    receive_nonce: u64,
    inbox: Vec<Message>,
    failure: Option<Error>,
}

/// What a [`ChannelManager`] stands for: everything but the inside of its vault.
pub struct Channel {
    /// Where the channel stands.
    pub state: ChannelState,
    /// The number of the channel's address.
    pub channel: u32,
    /// The worker that decrypted traffic is delivered to.
    pub owner: AddressView,
    /// The handle of the local static key.
    pub identity: Option<SecretKeyHandle>,
    /// The handle of the local ephemeral key, during the handshake.
    pub ephemeral: Option<SecretKeyHandle>,
    /// The handle of the chain, during the handshake.
    pub chaining: Option<SecretKeyHandle>,
    /// The handle of the key that the chain gave last, during the handshake.
    pub handshake_key: Option<SecretKeyHandle>,
    /// The nonce that goes with the handshake key next.
    pub handshake_nonce: u64,
    /// The running transcript hash.
    pub transcript: Seq<u8>,
    /// What was mixed into the transcript, in order.
    pub mixed: Seq<Seq<u8>>,
    /// The secrets that the vault was asked to erase.
    pub erased: Set<SecretKeyHandle>,
    /// The peer's ephemeral public key.
    pub remote_ephemeral: Seq<u8>,
    /// The peer's static public key, once the peer has proved that it holds it.
    pub peer_identity: Option<Seq<u8>>,
    /// The handle of the session key for sending, once established.
    pub send_key: Option<SecretKeyHandle>,
    /// The handle of the session key for receiving, once established.
    pub receive_key: Option<SecretKeyHandle>,
    /// The nonce of the next message sent.
    pub send_nonce: u64,
    /// The nonce of the next message received.
    pub receive_nonce: u64,
    /// The messages that wait to be handled by the next poll.
    pub inbox: Seq<MessageView>,
    /// Why the channel failed, if it did.
    pub failure: Option<Error>,
}

impl Channel {
    /// An established channel knows its peer and has a session key for each direction.
    pub open spec fn wf(self) -> bool {
        self.state == ChannelState::Established ==> self.peer_identity is Some && self.send_key
            is Some && self.receive_key is Some
    }

    /// Whether the channel holds `handle`: it names a secret of the
    /// handshake or of the session. The identity is the owner's and does not count.
    pub open spec fn holds(self, handle: SecretKeyHandle) -> bool {
        ||| self.ephemeral == Some(handle)
        ||| self.chaining == Some(handle)
        ||| self.handshake_key == Some(handle)
        ||| self.send_key == Some(handle)
        ||| self.receive_key == Some(handle)
    }

    /// The secrets that the channel holds handles of.
    pub open spec fn secrets(self) -> Set<SecretKeyHandle> {
        Set::new(|handle: SecretKeyHandle| self.holds(handle))
    }

    /// Whether the channel accounts for every secret that `before` held:
    /// the channel still holds it, or the vault was asked to erase it.
    /// Nothing that was erased is forgotten.
    pub open spec fn accounts_for(self, before: Channel) -> bool {
        &&& before.erased.subset_of(self.erased)
        &&& forall|handle: SecretKeyHandle| #[trigger]
            before.holds(handle) ==> self.holds(handle) || self.erased.contains(handle)
    }

    /// The channel after it was given up for `cause`: it is `Failed`, it
    /// holds no handle any more, and the vault was asked to erase every
    /// secret that it held.
    pub open spec fn failed(self, cause: Error) -> Channel {
        Channel {
            state: ChannelState::Failed,
            failure: Some(cause),
            identity: None,
            ephemeral: None,
            chaining: None,
            handshake_key: None,
            send_key: None,
            receive_key: None,
            erased: self.erased.union(self.secrets()),
            ..self
        }
    }

    /// Whether the channel holds the handle of any secret but its identity.
    pub open spec fn holds_secrets(self) -> bool {
        self.ephemeral is Some || self.chaining is Some || self.handshake_key is Some
            || self.send_key is Some || self.receive_key is Some
    }
}

/// Whether two channels have the same address, owner, traffic nonces and waiting messages.
pub open spec fn same_ends(now: Channel, before: Channel) -> bool {
    &&& now.channel == before.channel
    &&& now.owner == before.owner
    &&& now.send_nonce == before.send_nonce
    &&& now.receive_nonce == before.receive_nonce
    &&& now.inbox == before.inbox
}

/// Whether two channels differ in what belongs to the handshake only: the
/// state, the address, the owner, the identity, the traffic nonces, the
/// waiting messages and the failure are the same.
pub open spec fn same_but_handshake(now: Channel, before: Channel) -> bool {
    &&& same_ends(now, before)
    &&& now.state == before.state
    &&& now.identity == before.identity
    &&& now.failure == before.failure
}

/// Whether `after` is `before` with one handshake message offered to it,
/// whose onward route is `onward_route` and whose return route is `return_route`.
pub open spec fn sent_handshake(
    before: MemQueue<Message>,
    after: MemQueue<Message>,
    onward_route: Seq<AddressView>,
    return_route: Seq<AddressView>,
) -> bool {
    exists|message: Message|
        {
            &&& message@.onward_route == onward_route
            &&& message@.return_route == return_route
            &&& message@.message_type == MessageType::Handshake
            &&& #[trigger] enqueued(before@, before.limit(), message) == after@
            &&& after.dropped() == dropped_after(before@.len(), before.limit(), before.dropped())
            &&& after.limit() == before.limit()
        }
}

/// Whether `after` is `before` with exactly `message` offered to it.
pub open spec fn offered(
    before: MemQueue<Message>,
    after: MemQueue<Message>,
    message: MessageView,
) -> bool {
    exists|sent: Message|
        {
            &&& sent@ == message
            &&& #[trigger] enqueued(before@, before.limit(), sent) == after@
            &&& after.dropped() == dropped_after(before@.len(), before.limit(), before.dropped())
            &&& after.limit() == before.limit()
        }
}

/// The handshake message that a channel sends: it goes along
/// `onward_route`, names the channel as the way back, and carries `body`.
pub open spec fn handshake_message(
    channel: u32,
    onward_route: Seq<AddressView>,
    body: Seq<u8>,
) -> MessageView {
    MessageView {
        onward_route,
        return_route: seq![AddressView::Channel(channel)],
        message_type: MessageType::Handshake,
        message_body: body,
    }
}

/// Where a step of the handshake that did not fail takes a channel: an
/// idle channel awaits the final message; any other is established.
pub open spec fn next_state(state: ChannelState) -> ChannelState {
    if state == ChannelState::Idle {
        ChannelState::AwaitingFinal
    } else {
        ChannelState::Established
    }
}

/// Whether the peer's proof is accepted, by what the vault made of it: the
/// proof must open, and be empty.
pub fn proof_accepted(opened: Result<Vec<u8>, Error>) -> (checked: Result<(), Error>)
    ensures
        checked is Ok <==> (opened is Ok && opened->Ok_0@.len() == 0),
        checked is Err ==> checked->Err_0 == Error::HandshakeAuth,
{
    match opened {
        Ok(payload) => if payload.len() == 0 {
            Ok(())
        } else {
            Err(Error::HandshakeAuth)
        },
        Err(_) => Err(Error::HandshakeAuth),
    }
}

/// Whether `after` is `before` with one handshake message offered to it,
/// whose routes are as given and whose body is made up of the fields `said`.
pub open spec fn said_handshake(
    before: MemQueue<Message>,
    after: MemQueue<Message>,
    onward_route: Seq<AddressView>,
    return_route: Seq<AddressView>,
    said: Seq<Seq<u8>>,
) -> bool {
    exists|message: Message|
        {
            &&& message@.onward_route == onward_route
            &&& message@.return_route == return_route
            &&& message@.message_type == MessageType::Handshake
            &&& parse_fields(message@.message_body, said.len()) == Some(said)
            &&& #[trigger] enqueued(before@, before.limit(), message) == after@
            &&& after.dropped() == dropped_after(before@.len(), before.limit(), before.dropped())
            &&& after.limit() == before.limit()
        }
}

/// What is mixed into the transcript of a channel once it has taken in the
/// fields `got` of a handshake message: an idle channel starts its
/// transcript with the name of the handshake; any other goes on with its own.
pub open spec fn mixed_on(before: Channel, got: Seq<Seq<u8>>) -> Seq<Seq<u8>> {
    if before.state == ChannelState::Idle {
        seq![name_bytes()] + got
    } else {
        before.mixed + got
    }
}

/// What a step of the handshake that did not fail says and mixes in: the
/// fields of the message that came are mixed into the transcript, then the
/// fields of the message that is sent, if the step sends one. Three fields
/// are sent in answer to the first message and two in answer to the second.
pub open spec fn said_in_step(
    before: Channel,
    queue_before: MemQueue<Message>,
    message: MessageView,
    after: Channel,
    queue_after: MemQueue<Message>,
) -> bool {
    let got = parse_fields(message.message_body, awaited_fields(before.state));
    let base = mixed_on(before, got->Some_0);
    &&& got is Some
    &&& base.is_prefix_of(after.mixed)
    &&& sends_on(before.state, after.state) == 0 ==> after.mixed == base
    &&& sends_on(before.state, after.state) == 1 ==> after.mixed.len() == base.len() + (
    if before.state == ChannelState::Idle {
        3int
    } else {
        2int
    }) && said_handshake(
        queue_before,
        queue_after,
        message.return_route,
        seq![AddressView::Channel(before.channel)],
        after.mixed.skip(base.len() as int),
    )
}

/// Both ends of a handshake mix the same things into their transcripts, in
/// the same order: the name of the handshake, then the fields of the first,
/// the second and the third message.
pub proof fn lemma_transcripts_agree(
    first: Seq<Seq<u8>>,
    second: Seq<Seq<u8>>,
    third: Seq<Seq<u8>>,
    initiating: Channel,
    started: Channel,
    idle: Channel,
    awaiting: Channel,
    answered: Channel,
)
    requires
        initiating.state == ChannelState::Initiating,
        initiating.mixed == seq![name_bytes()] + first,
        started.mixed == mixed_on(initiating, second) + third,
        idle.state == ChannelState::Idle,
        awaiting.state == ChannelState::AwaitingFinal,
        awaiting.mixed == mixed_on(idle, first) + second,
        answered.mixed == mixed_on(awaiting, third),
    ensures
        started.mixed == answered.mixed,
        started.mixed == seq![name_bytes()] + first + second + third,
{
    assert(started.mixed =~= answered.mixed);
}

/// What a handshake message gives, by the state it finds the channel in,
/// its type, and the state it leaves the channel in.
pub open spec fn expected_signal(
    before: ChannelState,
    message_type: MessageType,
    after: ChannelState,
) -> Result<HandshakeSignal, Error> {
    if message_type != MessageType::Handshake {
        Err(Error::Protocol)
    } else {
        match (before, after) {
            (ChannelState::Idle, ChannelState::AwaitingFinal) => Ok(HandshakeSignal::Progress),
            (ChannelState::Initiating, ChannelState::Established) => Ok(
                HandshakeSignal::Established,
            ),
            (ChannelState::AwaitingFinal, ChannelState::Established) => Ok(
                HandshakeSignal::Established,
            ),
            (ChannelState::Idle, ChannelState::Failed) => Ok(HandshakeSignal::Disconnect),
            (ChannelState::Initiating, ChannelState::Failed) => Ok(HandshakeSignal::Disconnect),
            (ChannelState::AwaitingFinal, ChannelState::Failed) => Ok(HandshakeSignal::Disconnect),
            _ => Err(Error::ChannelState),
        }
    }
}

/// Whether a handshake is under way or can still begin.
pub open spec fn in_handshake(state: ChannelState) -> bool {
    state == ChannelState::Idle || state == ChannelState::Initiating || state
        == ChannelState::AwaitingFinal
}

/// How many fields the handshake message has that a channel in `state` awaits.
pub open spec fn awaited_fields(state: ChannelState) -> nat {
    match state {
        ChannelState::Idle => 1,
        ChannelState::Initiating => 3,
        _ => 2,
    }
}

/// Whether a handshake message is bound to fail a channel, whatever the
/// vault does: the message is not made up of the fields that are awaited,
/// or the channel lacks a key that the step needs.
pub open spec fn bound_to_fail(channel: Channel, body: Seq<u8>) -> bool {
    ||| parse_fields(body, awaited_fields(channel.state)) is None
    ||| channel.state == ChannelState::Idle && channel.identity is None
    ||| channel.state == ChannelState::Initiating && (channel.ephemeral is None
        || channel.identity is None)
    ||| channel.state == ChannelState::AwaitingFinal && (channel.ephemeral is None
        || channel.handshake_key is None)
}

/// How many handshake messages a channel sends when it goes from `from` to
/// `to`: one when it starts a handshake, one when it answers the first
/// message, one when it answers the second; none on any other step.
pub open spec fn sends_on(from: ChannelState, to: ChannelState) -> nat {
    match (from, to) {
        (ChannelState::Idle, ChannelState::Initiating) => 1,
        (ChannelState::Idle, ChannelState::AwaitingFinal) => 1,
        (ChannelState::Initiating, ChannelState::Established) => 1,
        _ => 0,
    }
}

/// Whether a list of states is a course that a channel can take, step by step.
pub open spec fn is_course(states: Seq<ChannelState>) -> bool {
    &&& states.len() > 0
    &&& forall|i: int| 0 <= i < states.len() - 1 ==> steps_to(#[trigger] states[i], states[i + 1])
}

/// The handshake messages that a channel sends on a course.
pub open spec fn sent_on_course(states: Seq<ChannelState>) -> nat
    decreases states.len(),
{
    if states.len() < 2 {
        0
    } else {
        sent_on_course(states.drop_last()) + sends_on(states[states.len() - 2], states.last())
    }
}

/// Handshake: a channel reaches `Established` from `Idle` in one of two
/// ways, as the end that starts the handshake or as the end that answers
/// it. The first end sends two handshake messages on its way and the second
/// sends one: three messages in all, and no fourth.
pub proof fn lemma_three_handshake_messages(states: Seq<ChannelState>)
    requires
        is_course(states),
        states.first() == ChannelState::Idle,
        states.last() == ChannelState::Established,
    ensures
        states == seq![ChannelState::Idle, ChannelState::Initiating, ChannelState::Established]
            || states == seq![
            ChannelState::Idle,
            ChannelState::AwaitingFinal,
            ChannelState::Established,
        ],
        states[1] == ChannelState::Initiating ==> sent_on_course(states) == 2,
        states[1] == ChannelState::AwaitingFinal ==> sent_on_course(states) == 1,
        sent_on_course(
            seq![ChannelState::Idle, ChannelState::Initiating, ChannelState::Established],
        ) + sent_on_course(
            seq![ChannelState::Idle, ChannelState::AwaitingFinal, ChannelState::Established],
        ) == 3,
{
    let starts = seq![ChannelState::Idle, ChannelState::Initiating, ChannelState::Established];
    let answers = seq![ChannelState::Idle, ChannelState::AwaitingFinal, ChannelState::Established];
    assert(states.len() >= 2);
    assert(steps_to(states[0], states[1]));
    assert(states.len() >= 3);
    assert(steps_to(states[1], states[2]));
    if states.len() > 3 {
        assert(steps_to(states[2], states[3]));
        if states.len() > 4 {
            assert(steps_to(states[3], states[4]));
        }
    }
    assert(states.len() == 3);
    assert(states =~= starts || states =~= answers);
    lemma_sent_on_three(starts);
    lemma_sent_on_three(answers);
}

/// The handshake messages that a channel sends on a course of two steps.
proof fn lemma_sent_on_three(states: Seq<ChannelState>)
    requires
        states.len() == 3,
    ensures
        sent_on_course(states) == sends_on(states[0], states[1]) + sends_on(states[1], states[2]),
{
    let two = states.drop_last();
    assert(two.len() == 2);
    assert(two.drop_last().len() == 1);
    assert(sent_on_course(two.drop_last()) == 0);
    assert(sent_on_course(two) == sends_on(two[0], two[1]));
}

/// Whether an operation took the channel nowhere or one step on.
pub open spec fn stays_or_steps(from: ChannelState, to: ChannelState) -> bool {
    from == to || steps_to(from, to)
}

/// `Closed` and `Failed` are final, and nothing leads back to `Idle`: a
/// channel that was given up is never used again, and a handshake is never
/// started twice.
pub proof fn lemma_no_way_back(from: ChannelState, to: ChannelState)
    requires
        steps_to(from, to),
    ensures
        from != ChannelState::Closed,
        from != ChannelState::Failed,
        to != ChannelState::Idle,
        to != from,
        !steps_to(to, from),
{
}

/// Whether handling messages may take a channel from `from` to `to`: the
/// channel stays where it is or moves forward in the handshake. Handling
/// messages neither closes a channel nor fails an established one.
pub open spec fn advances(from: ChannelState, to: ChannelState) -> bool {
    ||| from == to
    ||| steps_to(from, to) && from != ChannelState::Established
    ||| from == ChannelState::Idle && to == ChannelState::Established
}

/// A message that the channel decrypted, as it is handed on: the channel's
/// address is taken off the onward route and put in front of the return
/// route, and the body is the plaintext. A message that names no further
/// hop goes to the channel's owner.
pub open spec fn delivery(
    message: MessageView,
    plaintext: Seq<u8>,
    channel: u32,
    owner: AddressView,
) -> MessageView {
    MessageView {
        onward_route: if message.onward_route.len() > 1 {
            message.onward_route.skip(1)
        } else {
            seq![owner]
        },
        return_route: seq![AddressView::Channel(channel)] + message.return_route,
        message_type: MessageType::Payload,
        message_body: plaintext,
    }
}

/// What handling one message that was addressed to a channel comes to:
/// `after` and `queue_after` are what the channel and the queue are once
/// `message` was handled by a channel that was `before`, with the queue
/// `queue_before`.
///
/// A handshake message advances the handshake by one step, or fails the
/// channel; one that comes when no handshake is under way changes nothing.
/// An application message is decrypted and handed on through the queue; one
/// that is not authentic, or comes while the channel is not established,
/// changes nothing.
pub open spec fn handled(
    before: Channel,
    queue_before: MemQueue<Message>,
    message: MessageView,
    after: Channel,
    queue_after: MemQueue<Message>,
) -> bool {
    &&& before.wf() ==> after.wf()
    &&& after.accounts_for(before)
    &&& after.state == ChannelState::Failed && before.state != ChannelState::Failed
        ==> before.secrets().subset_of(after.erased)
    &&& after.channel == before.channel
    &&& after.owner == before.owner
    &&& after.inbox == before.inbox
    &&& after.send_nonce == before.send_nonce
    &&& advances(before.state, after.state)
    &&& queue_after.limit() == queue_before.limit()
    &&& message.message_type == MessageType::Handshake && !in_handshake(before.state)
        ==> after == before && queue_after == queue_before
    &&& message.message_type == MessageType::Handshake && in_handshake(before.state) ==> {
        &&& steps_to(before.state, after.state)
        &&& after.state != ChannelState::Failed ==> said_in_step(
            before,
            queue_before,
            message,
            after,
            queue_after,
        )
        &&& bound_to_fail(before, message.message_body) ==> after.state
            == ChannelState::Failed
        &&& parse_fields(message.message_body, awaited_fields(before.state)) is None
            ==> after.failure == Some(Error::HandshakeAuth)
        &&& after.state == ChannelState::Failed ==> !after.holds_secrets()
            && after.failure is Some && queue_after == queue_before
        &&& after.state != ChannelState::Failed ==> if before.state
            == ChannelState::AwaitingFinal {
            queue_after == queue_before
        } else {
            sent_handshake(
                queue_before,
                queue_after,
                message.return_route,
                seq![AddressView::Channel(before.channel)],
            )
        }
    }
    &&& message.message_type == MessageType::Payload && before.state
        != ChannelState::Established ==> after == before && queue_after
            == queue_before
    &&& message.message_type == MessageType::Payload ==> {
        ||| after == before && queue_after == queue_before
        ||| {
            &&& before.state == ChannelState::Established
            &&& after == (Channel {
                receive_nonce: (before.receive_nonce + 1) as u64,
                ..before
            })
            &&& exists|handed: Message|
                {
                    &&& handed@.onward_route == delivery(
                        message,
                        handed@.message_body,
                        before.channel,
                        before.owner,
                    ).onward_route
                    &&& handed@.return_route == delivery(
                        message,
                        handed@.message_body,
                        before.channel,
                        before.owner,
                    ).return_route
                    &&& handed@.message_type == MessageType::Payload
                    &&& #[trigger] enqueued(queue_before@, queue_before.limit(), handed)
                        == queue_after@
                    &&& queue_after.dropped() == dropped_after(
                        queue_before@.len(),
                        queue_before.limit(),
                        queue_before.dropped(),
                    )
                }
        }
    }
}

/// What handling messages one after the other comes to: `states` and
/// `queues` hold the channel and the queue before the first message and
/// after each message, and each message is handled as [`handled`] says.
pub open spec fn handled_in_turn(
    waiting: Seq<MessageView>,
    states: Seq<Channel>,
    queues: Seq<MemQueue<Message>>,
) -> bool {
    &&& states.len() == waiting.len() + 1
    &&& queues.len() == waiting.len() + 1
    &&& forall|i: int|
        #![trigger states[i]]
        0 <= i < waiting.len() ==> handled(
            states[i],
            queues[i],
            waiting[i],
            states[i + 1],
            queues[i + 1],
        )
}

/// The attributes of an ephemeral key.
pub fn ephemeral_attributes() -> (attributes: SecretAttributes)
    ensures
        attributes == (SecretAttributes {
            stype: SecretType::Curve25519,
            persistence: SecretPersistence::Ephemeral,
            length: CURVE25519_SECRET_LENGTH,
        }),
{
    SecretAttributes {
        stype: SecretType::Curve25519,
        persistence: SecretPersistence::Ephemeral,
        length: CURVE25519_SECRET_LENGTH,
    }
}

impl<V: Vault> View for ChannelManager<V> {
    type V = Channel;

    closed spec fn view(&self) -> Channel {
        Channel {
            state: self.state,
            channel: self.channel,
            owner: self.owner@,
            identity: self.identity,
            ephemeral: self.ephemeral,
            chaining: self.symmetric.chaining,
            handshake_key: self.symmetric.key,
            handshake_nonce: self.symmetric.nonce,
            transcript: self.symmetric.transcript@,
            mixed: self.symmetric.mixed@,
            erased: self.symmetric.erased@,
            remote_ephemeral: self.remote_ephemeral@,
            peer_identity: match self.remote_static {
                Some(key) => Some(key@),
                None => None,
            },
            send_key: self.send_key,
            receive_key: self.receive_key,
            send_nonce: self.send_nonce,
            receive_nonce: self.receive_nonce,
            inbox: message_views(self.inbox@),
            failure: self.failure,
        }
    }
}

impl<V: Vault> ChannelManager<V> {
    /// An idle channel with the address `Channel(channel)`. Traffic that the
    /// channel decrypts and that names no further hop goes to `owner`.
    /// `identity` is the handle of the local static key; a channel that
    /// waits for a peer to start the handshake needs it from the beginning.
    pub fn new(
        vault: V,
        channel: u32,
        owner: Address,
        identity: Option<SecretKeyHandle>,
    ) -> (manager: ChannelManager<V>)
        ensures
            manager@ == (Channel {
                state: ChannelState::Idle,
                channel,
                owner: owner@,
                identity,
                ephemeral: None,
                chaining: None,
                handshake_key: None,
                handshake_nonce: 0,
                transcript: Seq::empty(),
                mixed: Seq::empty(),
                erased: Set::empty(),
                remote_ephemeral: Seq::empty(),
                peer_identity: None,
                send_key: None,
                receive_key: None,
                send_nonce: 0,
                receive_nonce: 0,
                inbox: Seq::empty(),
                failure: None,
            }),
    {
        let manager = ChannelManager {
            vault,
            channel,
            owner,
            state: ChannelState::Idle,
            identity,
            ephemeral: None,
            symmetric: Symmetric {
                transcript: Vec::new(),
                mixed: Ghost(Seq::empty()),
                erased: Ghost(Set::empty()),
                chaining: None,
                key: None,
                nonce: 0,
            },
            remote_ephemeral: Vec::new(),
            remote_static: None,
            send_key: None,
            receive_key: None,
            send_nonce: 0,
            receive_nonce: 0,
            inbox: Vec::new(),
            failure: None,
        };
        assert(manager@.inbox =~= Seq::<MessageView>::empty());
        manager
    }

    /// Where the channel stands.
    pub fn state(&self) -> (state: ChannelState)
        ensures
            state == self@.state,
    {
        self.state
    }

    /// The channel's address.
    pub fn address(&self) -> (address: Address)
        ensures
            address@ == AddressView::Channel(self@.channel),
    {
        Address::Channel(self.channel)
    }

    /// The vault the channel works with.
    pub fn vault(&self) -> (vault: &V)
        ensures
            *vault == self.held_vault(),
    {
        &self.vault
    }

    /// The vault the channel works with.
    pub closed spec fn held_vault(&self) -> V {
        self.vault
    }

    /// Why the channel failed, if it did.
    pub fn failure(&self) -> (failure: Option<Error>)
        ensures
            failure == self@.failure,
    {
        self.failure
    }

    /// Gives the channel up: every secret of the handshake and of the
    /// session is erased, every handle is forgotten, and the channel is
    /// `Failed` for good.
    fn fail(&mut self, cause: Error)
        ensures
            final(self)@ == old(self)@.failed(cause),
    {
        self.forget_all();
        self.failure = Some(cause);
        self.state = ChannelState::Failed;
    }

    /// Erases every secret of the handshake and of the session, and forgets
    /// every handle. The identity is the owner's: its handle is forgotten,
    /// the secret is left in the vault.
    fn forget_all(&mut self)
        ensures
            final(self)@ == (Channel {
                identity: None,
                ephemeral: None,
                chaining: None,
                handshake_key: None,
                send_key: None,
                receive_key: None,
                erased: old(self)@.erased.union(old(self)@.secrets()),
                ..old(self)@
            }),
    {
        discard(&mut self.vault, &mut self.ephemeral, &mut self.symmetric.erased);
        discard(&mut self.vault, &mut self.symmetric.chaining, &mut self.symmetric.erased);
        discard(&mut self.vault, &mut self.symmetric.key, &mut self.symmetric.erased);
        discard(&mut self.vault, &mut self.send_key, &mut self.symmetric.erased);
        discard(&mut self.vault, &mut self.receive_key, &mut self.symmetric.erased);
        self.identity = None;
        assert(self@.erased =~= old(self)@.erased.union(old(self)@.secrets()));
    }

    /// The peer's static public key, once the peer has proved that it holds it.
    pub fn peer_identity(&self) -> (key: Option<Vec<u8>>)
        ensures
            match self@.peer_identity {
                Some(identity) => key is Some && key->Some_0@ == identity,
                None => key is None,
            },
    {
        match &self.remote_static {
            Some(key) => Some(copy_bytes(key.as_slice())),
            None => None,
        }
    }

    /// Starts the handshake: starts the transcript, makes the ephemeral key,
    /// mixes its public key into the transcript, and makes the body of the
    /// first message, whose one field is that public key.
    fn start(&mut self) -> (body: Result<Vec<u8>, Error>)
        ensures
            final(self)@ == (Channel {
                ephemeral: final(self)@.ephemeral,
                transcript: final(self)@.transcript,
                mixed: final(self)@.mixed,
                erased: old(self)@.erased.union(held(old(self)@.ephemeral)),
                ..old(self)@
            }),
            body is Ok ==> {
                let sent = parse_fields(body->Ok_0@, 1);
                &&& sent is Some
                &&& sent->Some_0.len() == 1
                &&& final(self)@.ephemeral is Some
                &&& final(self)@.mixed == seq![name_bytes(), sent->Some_0[0]]
            },
    {
        discard(&mut self.vault, &mut self.ephemeral, &mut self.symmetric.erased);
        begin_transcript(&mut self.vault, &mut self.symmetric);
        let generated = self.vault.generate_secret(ephemeral_attributes());
        let ephemeral = self.keep_ephemeral(generated)?;
        let public_key = self.vault.public_key_of(ephemeral)?;
        mix_hash(&mut self.vault, &mut self.symmetric, public_key.as_slice());
        let mut fields: Vec<Vec<u8>> = Vec::new();
        fields.push(public_key);
        match write_fields(&fields) {
            Some(body) => {
                proof {
                    lemma_fields_round_trip(field_views(fields@));
                }
                Ok(body)
            },
            None => Err(Error::HandshakeAuth),
        }
    }

    /// Answers the first handshake message: takes the peer's ephemeral key,
    /// makes the local one, and makes the body of the second message, with
    /// the local ephemeral key, the local static key and the proof that goes
    /// with it. Everything said is mixed into the transcript as it is said.
    /// A first message that is not made up of one field changes nothing.
    fn respond(&mut self, first: &[u8]) -> (body: Result<Vec<u8>, Error>)
        ensures
            final(self)@.accounts_for(old(self)@),
            same_but_handshake(final(self)@, old(self)@),
            final(self)@.peer_identity == old(self)@.peer_identity,
            final(self)@.send_key == old(self)@.send_key,
            final(self)@.receive_key == old(self)@.receive_key,
            parse_fields(first@, 1) is None ==> body == Err::<Vec<u8>, Error>(Error::HandshakeAuth)
                && final(self)@ == old(self)@,
            old(self)@.identity is None ==> body is Err,
            body is Ok ==> {
                let got = parse_fields(first@, 1);
                let sent = parse_fields(body->Ok_0@, 3);
                &&& got is Some
                &&& sent is Some
                &&& got->Some_0.len() == 1
                &&& sent->Some_0.len() == 3
                &&& final(self)@.mixed == seq![
                    name_bytes(),
                    got->Some_0[0],
                    sent->Some_0[0],
                    sent->Some_0[1],
                    sent->Some_0[2],
                ]
                &&& final(self)@.remote_ephemeral == got->Some_0[0]
                &&& final(self)@.ephemeral is Some
                &&& final(self)@.chaining is Some
                &&& final(self)@.handshake_key is Some
                &&& final(self)@.handshake_nonce == 1
            },
    {
        let fields = match read_fields(first, 1) {
            Some(fields) => fields,
            None => {
                return Err(Error::HandshakeAuth);
            },
        };
        discard(&mut self.vault, &mut self.ephemeral, &mut self.symmetric.erased);
        begin_transcript(&mut self.vault, &mut self.symmetric);
        mix_hash(&mut self.vault, &mut self.symmetric, fields[0].as_slice());
        let generated = self.vault.generate_secret(ephemeral_attributes());
        let ephemeral = self.keep_ephemeral(generated)?;
        let public_key = self.vault.public_key_of(ephemeral)?;
        mix_hash(&mut self.vault, &mut self.symmetric, public_key.as_slice());
        mix_agreement(
            &mut self.vault,
            &mut self.symmetric,
            self.ephemeral,
            fields[0].as_slice(),
        )?;
        let sealed_static = self.seal_identity()?;
        mix_agreement(&mut self.vault, &mut self.symmetric, self.identity, fields[0].as_slice())?;
        let nothing: Vec<u8> = Vec::new();
        let proof_of_static = encrypt_and_hash(
            &mut self.vault,
            &mut self.symmetric,
            nothing.as_slice(),
        )?;
        self.remote_ephemeral = copy_bytes(fields[0].as_slice());
        let mut reply: Vec<Vec<u8>> = Vec::new();
        reply.push(public_key);
        reply.push(sealed_static);
        reply.push(proof_of_static);
        match write_fields(&reply) {
            Some(body) => {
                proof {
                    lemma_fields_round_trip(field_views(reply@));
                }
                Ok(body)
            },
            None => Err(Error::HandshakeAuth),
        }
    }

    /// Handles the second handshake message: takes the peer's keys, checks
    /// the peer's proof, makes the body of the third message, with the local
    /// static key and the proof that goes with it, and splits the chain.
    /// Everything said is mixed into the transcript as it is said. A second
    /// message that is not made up of three fields changes nothing.
    fn confirm(&mut self, second: &[u8]) -> (body: Result<Vec<u8>, Error>)
        ensures
            final(self)@.accounts_for(old(self)@),
            same_but_handshake(final(self)@, old(self)@),
            parse_fields(second@, 3) is None ==> body == Err::<Vec<u8>, Error>(
                Error::HandshakeAuth,
            ) && final(self)@ == old(self)@,
            old(self)@.ephemeral is None || old(self)@.identity is None ==> body is Err,
            body is Ok ==> {
                let got = parse_fields(second@, 3);
                let sent = parse_fields(body->Ok_0@, 2);
                &&& got is Some
                &&& sent is Some
                &&& got->Some_0.len() == 3
                &&& sent->Some_0.len() == 2
                &&& final(self)@.mixed == old(self)@.mixed + got->Some_0 + sent->Some_0
                &&& final(self)@.remote_ephemeral == got->Some_0[0]
                &&& final(self)@.peer_identity is Some
                &&& final(self)@.send_key is Some
                &&& final(self)@.receive_key is Some
                &&& final(self)@.ephemeral is None
                &&& final(self)@.chaining is None
                &&& final(self)@.handshake_key is None
            },
    {
        let fields = match read_fields(second, 3) {
            Some(fields) => fields,
            None => {
                return Err(Error::HandshakeAuth);
            },
        };
        mix_hash(&mut self.vault, &mut self.symmetric, fields[0].as_slice());
        mix_agreement(
            &mut self.vault,
            &mut self.symmetric,
            self.ephemeral,
            fields[0].as_slice(),
        )?;
        self.authenticate_peer(fields[1].as_slice(), fields[2].as_slice())?;
        let sealed_static = self.seal_identity()?;
        mix_agreement(&mut self.vault, &mut self.symmetric, self.identity, fields[0].as_slice())?;
        let nothing: Vec<u8> = Vec::new();
        let proof_of_static = encrypt_and_hash(
            &mut self.vault,
            &mut self.symmetric,
            nothing.as_slice(),
        )?;
        self.remote_ephemeral = copy_bytes(fields[0].as_slice());
        self.split(true)?;
        let mut reply: Vec<Vec<u8>> = Vec::new();
        reply.push(sealed_static);
        reply.push(proof_of_static);
        match write_fields(&reply) {
            Some(body) => {
                proof {
                    lemma_fields_round_trip(field_views(reply@));
                    assert(self@.mixed =~= old(self)@.mixed + field_views(fields@) + field_views(
                        reply@,
                    ));
                }
                Ok(body)
            },
            None => Err(Error::HandshakeAuth),
        }
    }

    /// Handles the third handshake message: takes the peer's static key,
    /// checks the peer's proof, and splits the chain. What the message says
    /// is mixed into the transcript. A third message that is not made up of
    /// two fields changes nothing.
    fn complete(&mut self, third: &[u8]) -> (done: Result<(), Error>)
        ensures
            final(self)@.accounts_for(old(self)@),
            same_but_handshake(final(self)@, old(self)@),
            final(self)@.remote_ephemeral == old(self)@.remote_ephemeral,
            parse_fields(third@, 2) is None ==> done == Err::<(), Error>(Error::HandshakeAuth)
                && final(self)@ == old(self)@,
            old(self)@.ephemeral is None || old(self)@.handshake_key is None ==> done is Err,
            done is Ok ==> {
                let got = parse_fields(third@, 2);
                &&& got is Some
                &&& got->Some_0.len() == 2
                &&& final(self)@.mixed == old(self)@.mixed + got->Some_0
                &&& final(self)@.peer_identity is Some
                &&& final(self)@.send_key is Some
                &&& final(self)@.receive_key is Some
                &&& final(self)@.ephemeral is None
                &&& final(self)@.chaining is None
                &&& final(self)@.handshake_key is None
            },
    {
        let fields = match read_fields(third, 2) {
            Some(fields) => fields,
            None => {
                return Err(Error::HandshakeAuth);
            },
        };
        self.authenticate_peer(fields[0].as_slice(), fields[1].as_slice())?;
        proof {
            assert(self@.mixed =~= old(self)@.mixed + field_views(fields@));
        }
        self.split(false)
    }

    /// Takes the peer's static key and checks the peer's proof. The static
    /// key comes encrypted under the chain; the secret it agrees on with the
    /// local ephemeral key is mixed into the chain; the proof must then open,
    /// and be empty. Only then is the peer's static key kept. Both
    /// ciphertexts are mixed into the transcript. Without a handshake key or
    /// an ephemeral key nothing is checked.
    fn authenticate_peer(&mut self, sealed_static: &[u8], proof_of_static: &[u8]) -> (checked:
        Result<(), Error>)
        ensures
            final(self)@.accounts_for(old(self)@),
            same_but_handshake(final(self)@, old(self)@),
            final(self)@.ephemeral == old(self)@.ephemeral,
            final(self)@.remote_ephemeral == old(self)@.remote_ephemeral,
            final(self)@.send_key == old(self)@.send_key,
            final(self)@.receive_key == old(self)@.receive_key,
            old(self)@.handshake_key is None ==> checked == Err::<(), Error>(Error::HandshakeAuth)
                && final(self)@ == old(self)@,
            old(self)@.ephemeral is None ==> checked is Err,
            checked is Ok ==> {
                &&& final(self)@.peer_identity is Some
                &&& final(self)@.mixed == old(self)@.mixed.push(sealed_static@).push(
                    proof_of_static@,
                )
                &&& final(self)@.chaining is Some
                &&& final(self)@.handshake_key is Some
                &&& final(self)@.handshake_nonce == 1
            },
            checked is Err ==> final(self)@.peer_identity == old(self)@.peer_identity,
    {
        let remote_static = decrypt_and_hash(&mut self.vault, &mut self.symmetric, sealed_static)?;
        mix_agreement(
            &mut self.vault,
            &mut self.symmetric,
            self.ephemeral,
            remote_static.as_slice(),
        )?;
        let opened = decrypt_and_hash(&mut self.vault, &mut self.symmetric, proof_of_static);
        self.accept_peer(remote_static, opened)
    }

    /// Takes the ephemeral key that the vault generated: its handle is kept.
    /// A failure is handed on as it is and changes nothing.
    pub fn keep_ephemeral(&mut self, generated: Result<SecretKeyHandle, Error>) -> (kept: Result<
        SecretKeyHandle,
        Error,
    >)
        ensures
            kept == generated,
            generated is Err ==> final(self)@ == old(self)@,
            generated is Ok ==> final(self)@ == (Channel {
                ephemeral: Some(generated->Ok_0),
                ..old(self)@
            }),
    {
        if let Ok(handle) = generated {
            self.ephemeral = Some(handle);
        }
        generated
    }

    /// Accepts or refuses the peer, by what the vault made of the peer's
    /// proof: when the proof opened and is empty, the peer's static key is
    /// kept; else the peer is refused and nothing changes.
    pub fn accept_peer(
        &mut self,
        remote_static: Vec<u8>,
        opened: Result<Vec<u8>, Error>,
    ) -> (checked: Result<(), Error>)
        ensures
            checked is Ok <==> (opened is Ok && opened->Ok_0@.len() == 0),
            checked is Err ==> checked->Err_0 == Error::HandshakeAuth && final(self)@ == old(self)@,
            checked is Ok ==> final(self)@ == (Channel {
                peer_identity: Some(remote_static@),
                ..old(self)@
            }),
    {
        match proof_accepted(opened) {
            Ok(()) => {
                self.remote_static = Some(remote_static);
                Ok(())
            },
            Err(error) => Err(error),
        }
    }

    /// What the vault is asked to derive from, to split the chain: the
    /// chain as it stands, and nothing else.
    pub fn split_with(&self) -> (with: (Option<SecretKeyHandle>, Option<SecretKeyHandle>))
        ensures
            with == (self@.chaining, None::<SecretKeyHandle>),
    {
        (self.symmetric.chaining, None)
    }

    /// Takes what the vault derived when the chain was split. The first
    /// secret is the key for what the initiator sends, the second for what
    /// the responder sends: each end sends with its own and receives with
    /// the other. The secrets that the channel held until then are erased.
    /// A failure is handed on as it is and changes nothing.
    pub fn after_split(
        &mut self,
        initiator: bool,
        derived: Result<(SecretKeyHandle, SecretKeyHandle), Error>,
    ) -> (done: Result<(), Error>)
        ensures
            match derived {
                Ok((first, second)) => done == Ok::<(), Error>(()) && final(self)@ == (Channel {
                    send_key: Some(if initiator { first } else { second }),
                    receive_key: Some(if initiator { second } else { first }),
                    ephemeral: None,
                    chaining: None,
                    handshake_key: None,
                    erased: old(self)@.erased.union(old(self)@.secrets()),
                    ..old(self)@
                }),
                Err(error) => done == Err::<(), Error>(error) && final(self)@ == old(self)@,
            },
    {
        let (first, second) = match derived {
            Ok(keys) => keys,
            Err(error) => {
                return Err(error);
            },
        };
        discard(&mut self.vault, &mut self.send_key, &mut self.symmetric.erased);
        discard(&mut self.vault, &mut self.receive_key, &mut self.symmetric.erased);
        if initiator {
            self.send_key = Some(first);
            self.receive_key = Some(second);
        } else {
            self.send_key = Some(second);
            self.receive_key = Some(first);
        }
        self.forget_handshake();
        assert(self@.erased =~= old(self)@.erased.union(old(self)@.secrets()));
        Ok(())
    }

    /// The identity whose public key is sealed for the peer. Without one
    /// nothing is sealed.
    pub fn identity_with(&self) -> (with: Result<SecretKeyHandle, Error>)
        ensures
            match self@.identity {
                Some(identity) => with == Ok::<SecretKeyHandle, Error>(identity),
                None => with == Err::<SecretKeyHandle, Error>(Error::HandshakeAuth),
            },
    {
        match self.identity {
            Some(identity) => Ok(identity),
            None => Err(Error::HandshakeAuth),
        }
    }

    /// Splits the chain into the two session keys: the first is for what the
    /// initiator sends, the second for what the responder sends. The
    /// secrets that the channel held until then are erased. When the vault
    /// fails, nothing changes.
    fn split(&mut self, initiator: bool) -> (done: Result<(), Error>)
        ensures
            done is Err ==> final(self)@ == old(self)@,
            done is Ok ==> final(self)@ == (Channel {
                send_key: final(self)@.send_key,
                receive_key: final(self)@.receive_key,
                ephemeral: None,
                chaining: None,
                handshake_key: None,
                erased: old(self)@.erased.union(old(self)@.secrets()),
                ..old(self)@
            }) && final(self)@.send_key is Some && final(self)@.receive_key is Some,
    {
        let (chaining, nothing) = self.split_with();
        let derived = self.vault.derive(chaining, nothing);
        self.after_split(initiator, derived)
    }

    /// Encrypts the local static public key under the chain as it stands,
    /// and mixes the ciphertext into the transcript. Without an identity
    /// nothing is encrypted; a failure changes nothing.
    fn seal_identity(&mut self) -> (sealed: Result<Vec<u8>, Error>)
        ensures
            old(self)@.identity is None ==> sealed == Err::<Vec<u8>, Error>(Error::HandshakeAuth),
            old(self)@.handshake_key is None ==> sealed is Err,
            sealed is Err ==> final(self)@ == old(self)@,
            sealed is Ok ==> final(self)@ == (Channel {
                transcript: final(self)@.transcript,
                mixed: old(self)@.mixed.push(sealed->Ok_0@),
                handshake_nonce: (old(self)@.handshake_nonce + 1) as u64,
                ..old(self)@
            }),
    {
        let identity = self.identity_with()?;
        let public_key = self.vault.public_key_of(identity)?;
        encrypt_and_hash(&mut self.vault, &mut self.symmetric, public_key.as_slice())
    }

    /// Erases the secrets that only the handshake needed.
    fn forget_handshake(&mut self)
        ensures
            final(self)@ == (Channel {
                ephemeral: None,
                chaining: None,
                handshake_key: None,
                erased: old(self)@.erased.union(held(old(self)@.ephemeral)).union(
                    held(old(self)@.chaining),
                ).union(held(old(self)@.handshake_key)),
                ..old(self)@
            }),
    {
        discard(&mut self.vault, &mut self.ephemeral, &mut self.symmetric.erased);
        discard(&mut self.vault, &mut self.symmetric.chaining, &mut self.symmetric.erased);
        discard(&mut self.vault, &mut self.symmetric.key, &mut self.symmetric.erased);
    }

    /// The address of this channel as a return route.
    fn way_back(&self) -> (route: Route)
        ensures
            route@ == seq![AddressView::Channel(self@.channel)],
    {
        let mut route = Route::new();
        route.prepend(Address::Channel(self.channel));
        route
    }

    /// Starts a handshake with the peer at the end of `route`. This is valid
    /// in `Idle` only; otherwise the call fails with a channel-state error
    /// and changes nothing. The first handshake message is put on `queue`,
    /// with `route` as its onward route and the channel's address as its
    /// return route; the channel's address is returned. When the vault
    /// fails, the channel fails.
    pub fn initiate(
        &mut self,
        route: Route,
        local_identity_handle: SecretKeyHandle,
        queue: &mut MemQueue<Message>,
    ) -> (address: Result<Address, Error>)
        ensures
            old(self)@.wf() ==> final(self)@.wf(),
            sends_on(old(self)@.state, final(self)@.state) == 0 ==> *final(queue) == *old(queue),
            sends_on(old(self)@.state, final(self)@.state) == 1 ==> sent_handshake(
                *old(queue),
                *final(queue),
                route@,
                seq![AddressView::Channel(old(self)@.channel)],
            ),
            final(self)@.accounts_for(old(self)@),
            final(self)@.state == ChannelState::Failed && old(self)@.state
                != ChannelState::Failed ==> old(self)@.secrets().subset_of(final(self)@.erased),
            same_ends(final(self)@, old(self)@),
            stays_or_steps(old(self)@.state, final(self)@.state),
            old(self)@.state != ChannelState::Idle ==> address is Err && address->Err_0
                == Error::ChannelState && final(self)@ == old(self)@ && *final(queue)
                    == *old(queue),
            old(self)@.state == ChannelState::Idle ==> match address {
                Ok(address) => {
                    &&& address@ == AddressView::Channel(old(self)@.channel)
                    &&& final(self)@.state == ChannelState::Initiating
                    &&& final(self)@.identity == Some(local_identity_handle)
                    &&& final(self)@.mixed.len() == 2
                    &&& final(self)@.mixed[0] == name_bytes()
                    &&& said_handshake(
                        *old(queue),
                        *final(queue),
                        route@,
                        seq![AddressView::Channel(old(self)@.channel)],
                        final(self)@.mixed.skip(1),
                    )
                    &&& sent_handshake(
                        *old(queue),
                        *final(queue),
                        route@,
                        seq![AddressView::Channel(old(self)@.channel)],
                    )
                },
                Err(error) => {
                    &&& final(self)@.state == ChannelState::Failed
                    &&& final(self)@.failure == Some(error)
                    &&& !final(self)@.holds_secrets()
                    &&& *final(queue) == *old(queue)
                },
            },
    {
        if self.state != ChannelState::Idle {
            return Err(Error::ChannelState);
        }
        self.identity = Some(local_identity_handle);
        let started = self.start();
        let address = self.conclude_start(started, route, queue);
        proof {
            if started is Ok {
                let said = parse_fields(started->Ok_0@, 1)->Some_0;
                assert(self@.mixed.skip(1) =~= said);
                let sent = choose|sent: Message|
                    sent@ == handshake_message(old(self)@.channel, route@, started->Ok_0@)
                        && #[trigger] enqueued(old(queue)@, old(queue).limit(), sent) == queue@;
                assert(enqueued(old(queue)@, old(queue).limit(), sent) == queue@);
            }
        }
        address
    }

    /// What starting a handshake comes to, by what the start made: the body
    /// of the first message, or a failure. With a body the message goes on
    /// `queue`, along `route` and with the channel's address as the way
    /// back, the channel is `Initiating`, and the channel's address is
    /// returned. With a failure the channel is given up and the failure
    /// returned. This is valid in `Idle` only; otherwise the call fails with
    /// a channel-state error and changes nothing.
    pub fn conclude_start(
        &mut self,
        started: Result<Vec<u8>, Error>,
        route: Route,
        queue: &mut MemQueue<Message>,
    ) -> (address: Result<Address, Error>)
        ensures
            old(self)@.state != ChannelState::Idle ==> address is Err && address->Err_0
                == Error::ChannelState && final(self)@ == old(self)@ && *final(queue)
                    == *old(queue),
            old(self)@.state == ChannelState::Idle ==> match started {
                Ok(body) => {
                    &&& address is Ok
                    &&& address->Ok_0@ == AddressView::Channel(old(self)@.channel)
                    &&& final(self)@ == (Channel {
                        state: ChannelState::Initiating,
                        ..old(self)@
                    })
                    &&& offered(
                        *old(queue),
                        *final(queue),
                        handshake_message(old(self)@.channel, route@, body@),
                    )
                },
                Err(error) => {
                    &&& address is Err
                    &&& address->Err_0 == error
                    &&& final(self)@ == old(self)@.failed(error)
                    &&& *final(queue) == *old(queue)
                },
            },
    {
        if self.state != ChannelState::Idle {
            return Err(Error::ChannelState);
        }
        match started {
            Ok(message_body) => {
                let message = Message {
                    onward_route: route,
                    return_route: self.way_back(),
                    message_type: MessageType::Handshake,
                    message_body,
                };
                queue.enqueue(message);
                assert(enqueued(old(queue)@, old(queue).limit(), message) == queue@);
                self.state = ChannelState::Initiating;
                Ok(Address::Channel(self.channel))
            },
            Err(error) => {
                self.fail(error);
                Err(error)
            },
        }
    }

    /// What a step of the handshake comes to, by what the step made: the
    /// body of a reply, nothing to reply, or a failure. Without a failure
    /// an idle channel awaits the final message and any other is
    /// established, and the reply, if there is one, goes on `queue`, along
    /// `reply_to` and with the channel's address as the way back. With a
    /// failure the channel is given up and the disconnect signal given;
    /// nothing goes on `queue`. Outside a handshake the call fails with a
    /// channel-state error and changes nothing.
    pub fn conclude_step(
        &mut self,
        made: Result<Option<Vec<u8>>, Error>,
        reply_to: Route,
        queue: &mut MemQueue<Message>,
    ) -> (signal: Result<HandshakeSignal, Error>)
        ensures
            !in_handshake(old(self)@.state) ==> signal == Err::<HandshakeSignal, Error>(
                Error::ChannelState,
            ) && final(self)@ == old(self)@ && *final(queue) == *old(queue),
            in_handshake(old(self)@.state) ==> match made {
                Err(error) => {
                    &&& signal == Ok::<HandshakeSignal, Error>(HandshakeSignal::Disconnect)
                    &&& final(self)@ == old(self)@.failed(error)
                    &&& *final(queue) == *old(queue)
                },
                Ok(reply) => {
                    &&& signal == Ok::<HandshakeSignal, Error>(
                        if old(self)@.state == ChannelState::Idle {
                            HandshakeSignal::Progress
                        } else {
                            HandshakeSignal::Established
                        },
                    )
                    &&& final(self)@ == (Channel {
                        state: next_state(old(self)@.state),
                        ..old(self)@
                    })
                    &&& match reply {
                        Some(body) => offered(
                            *old(queue),
                            *final(queue),
                            handshake_message(old(self)@.channel, reply_to@, body@),
                        ),
                        None => *final(queue) == *old(queue),
                    }
                },
            },
    {
        let idle = match self.state {
            ChannelState::Idle => true,
            ChannelState::Initiating => false,
            ChannelState::AwaitingFinal => false,
            _ => {
                return Err(Error::ChannelState);
            },
        };
        match made {
            Ok(reply) => {
                if let Some(message_body) = reply {
                    let message = Message {
                        onward_route: reply_to,
                        return_route: self.way_back(),
                        message_type: MessageType::Handshake,
                        message_body,
                    };
                    queue.enqueue(message);
                    assert(enqueued(old(queue)@, old(queue).limit(), message) == queue@);
                }
                if idle {
                    self.state = ChannelState::AwaitingFinal;
                    Ok(HandshakeSignal::Progress)
                } else {
                    self.state = ChannelState::Established;
                    Ok(HandshakeSignal::Established)
                }
            },
            Err(error) => {
                self.fail(error);
                Ok(HandshakeSignal::Disconnect)
            },
        }
    }

    /// Takes one step of the handshake with the body of the message that
    /// came: an idle channel answers the first message, an initiating one
    /// handles the second and answers it, one that awaits the final message
    /// handles that. What comes back is the body of the reply, if the step
    /// makes one, or the failure.
    fn step(&mut self, body: &[u8]) -> (made: Result<Option<Vec<u8>>, Error>)
        requires
            in_handshake(old(self)@.state),
        ensures
            final(self)@.accounts_for(old(self)@),
            same_but_handshake(final(self)@, old(self)@),
            bound_to_fail(old(self)@, body@) ==> made is Err,
            parse_fields(body@, awaited_fields(old(self)@.state)) is None ==> made == Err::<
                Option<Vec<u8>>,
                Error,
            >(Error::HandshakeAuth) && final(self)@ == old(self)@,
            made is Ok ==> {
                let got = parse_fields(body@, awaited_fields(old(self)@.state));
                let base = mixed_on(old(self)@, got->Some_0);
                &&& got is Some
                &&& (made->Ok_0 is Some) == (old(self)@.state != ChannelState::AwaitingFinal)
                &&& old(self)@.state != ChannelState::Idle ==> final(self)@.peer_identity is Some
                    && final(self)@.send_key is Some && final(self)@.receive_key is Some
                &&& match made->Ok_0 {
                    Some(reply) => {
                        let sent = parse_fields(
                            reply@,
                            if old(self)@.state == ChannelState::Idle {
                                3nat
                            } else {
                                2nat
                            },
                        );
                        &&& sent is Some
                        &&& sent->Some_0.len() == if old(self)@.state == ChannelState::Idle {
                            3int
                        } else {
                            2int
                        }
                        &&& final(self)@.mixed == base + sent->Some_0
                    },
                    None => final(self)@.mixed == base,
                }
            },
    {
        match self.state {
            ChannelState::Idle => match self.respond(body) {
                Ok(reply) => {
                    proof {
                        let got = parse_fields(body@, 1)->Some_0;
                        let sent = parse_fields(reply@, 3)->Some_0;
                        assert(self@.mixed =~= mixed_on(old(self)@, got) + sent);
                    }
                    Ok(Some(reply))
                },
                Err(error) => Err(error),
            },
            ChannelState::Initiating => match self.confirm(body) {
                Ok(reply) => Ok(Some(reply)),
                Err(error) => Err(error),
            },
            _ => match self.complete(body) {
                Ok(()) => Ok(None),
                Err(error) => Err(error),
            },
        }
    }

    /// Advances the handshake by one message.
    ///
    /// In `Idle` the message is the first of a handshake that the peer
    /// started: the reply goes on `queue`, along the return route of the
    /// message, and the channel awaits the final message. In `Initiating`
    /// the message is the peer's reply: the peer is checked, the final
    /// message goes on `queue`, and the channel is established. In
    /// `AwaitingFinal` the message is the final one: the peer is checked and
    /// the channel is established. A peer that fails a check, a message that is
    /// malformed and a vault that fails put the channel into `Failed` and
    /// give the disconnect signal; nothing goes on `queue` then.
    ///
    /// In any other state the call fails with a channel-state error, and for
    /// a message that is no handshake message with a protocol error; neither
    /// changes anything.
    pub fn on_handshake_message(
        &mut self,
        message: Message,
        queue: &mut MemQueue<Message>,
    ) -> (signal: Result<HandshakeSignal, Error>)
        ensures
            old(self)@.wf() ==> final(self)@.wf(),
            sends_on(old(self)@.state, final(self)@.state) == 0 ==> *final(queue) == *old(queue),
            sends_on(old(self)@.state, final(self)@.state) == 1 ==> sent_handshake(
                *old(queue),
                *final(queue),
                message@.return_route,
                seq![AddressView::Channel(old(self)@.channel)],
            ),
            final(self)@.accounts_for(old(self)@),
            signal == Ok::<HandshakeSignal, Error>(HandshakeSignal::Disconnect)
                ==> old(self)@.secrets().subset_of(final(self)@.erased),
            same_ends(final(self)@, old(self)@),
            stays_or_steps(old(self)@.state, final(self)@.state),
            signal == expected_signal(old(self)@.state, message@.message_type, final(self)@.state),
            signal is Ok == (message@.message_type == MessageType::Handshake && in_handshake(
                old(self)@.state,
            )),
            message@.message_type == MessageType::Handshake && in_handshake(old(self)@.state)
                && bound_to_fail(old(self)@, message@.message_body) ==> signal == Ok::<
                HandshakeSignal,
                Error,
            >(HandshakeSignal::Disconnect),
            message@.message_type == MessageType::Handshake && in_handshake(old(self)@.state)
                && parse_fields(message@.message_body, awaited_fields(old(self)@.state)) is None
                ==> final(self)@.failure == Some(Error::HandshakeAuth),
            signal is Ok && final(self)@.state != ChannelState::Failed ==> said_in_step(
                old(self)@,
                *old(queue),
                message@,
                final(self)@,
                *final(queue),
            ),
            signal is Err ==> final(self)@ == old(self)@ && *final(queue) == *old(queue),
            signal == Ok::<HandshakeSignal, Error>(HandshakeSignal::Disconnect)
                ==> !final(self)@.holds_secrets() && final(self)@.failure is Some && *final(queue)
                    == *old(queue),
            signal is Ok && final(self)@.state != ChannelState::Failed ==> if old(self)@.state
                == ChannelState::AwaitingFinal {
                *final(queue) == *old(queue)
            } else {
                sent_handshake(
                    *old(queue),
                    *final(queue),
                    message@.return_route,
                    seq![AddressView::Channel(old(self)@.channel)],
                )
            },
    {
        match message.message_type {
            MessageType::Payload => {
                return Err(Error::Protocol);
            },
            MessageType::Handshake => {},
        }
        match self.state {
            ChannelState::Idle => {},
            ChannelState::Initiating => {},
            ChannelState::AwaitingFinal => {},
            _ => {
                return Err(Error::ChannelState);
            },
        }
        let made = self.step(message.message_body.as_slice());
        let signal = self.conclude_step(made, message.return_route, queue);
        proof {
            if made is Ok {
                let got = parse_fields(
                    message@.message_body,
                    awaited_fields(old(self)@.state),
                )->Some_0;
                let base = mixed_on(old(self)@, got);
                assert(self@.mixed.subrange(0, base.len() as int) =~= base);
                if made->Ok_0 is Some {
                    let body = made->Ok_0->Some_0@;
                    let said = self@.mixed.skip(base.len() as int);
                    assert(parse_fields(body, said.len()) == Some(said)) by {
                        assert(said =~= parse_fields(
                            body,
                            if old(self)@.state == ChannelState::Idle {
                                3nat
                            } else {
                                2nat
                            },
                        )->Some_0);
                    }
                    let sent = choose|sent: Message|
                        sent@ == handshake_message(
                            old(self)@.channel,
                            message@.return_route,
                            body,
                        ) && #[trigger] enqueued(old(queue)@, old(queue).limit(), sent)
                            == queue@;
                    assert(enqueued(old(queue)@, old(queue).limit(), sent) == queue@);
                }
            }
        }
        signal
    }

    /// Handles one message that was addressed to the channel. A handshake
    /// message advances the handshake by one step, or fails the channel; one
    /// that comes when no handshake is under way is dropped and changes
    /// nothing. An application message is decrypted and handed on through
    /// `queue`; one that is not authentic, or comes while the channel is not
    /// established, is dropped and changes nothing.
    pub fn on_message(&mut self, message: Message, queue: &mut MemQueue<Message>)
        ensures
            handled(old(self)@, *old(queue), message@, final(self)@, *final(queue)),
    {
        match message.message_type {
            MessageType::Handshake => {
                let _ = self.on_handshake_message(message, queue);
            },
            MessageType::Payload => {
                let plaintext = match self.decrypt(message.message_body.as_slice()) {
                    Ok(plaintext) => plaintext,
                    Err(_) => {
                        return ;
                    },
                };
                let ghost taken = message@;
                let mut onward_route = message.onward_route;
                let mut return_route = message.return_route;
                let _ = onward_route.pop_front();
                if onward_route.len() == 0 {
                    onward_route.prepend(self.owner.clone());
                }
                return_route.prepend(Address::Channel(self.channel));
                let handed = Message {
                    onward_route,
                    return_route,
                    message_type: MessageType::Payload,
                    message_body: plaintext,
                };
                proof {
                    let expected = delivery(
                        taken,
                        handed@.message_body,
                        old(self)@.channel,
                        old(self)@.owner,
                    );
                }
                queue.enqueue(handed);
            },
        }
    }

    /// Encrypts application data for the peer. Each call uses the next send
    /// nonce. Outside `Established`, and when the send nonces are used up,
    /// the call fails with a channel-state error; a failure leaves the
    /// channel as it was.
    pub fn encrypt(&mut self, plaintext: &[u8]) -> (sealed: Result<Vec<u8>, Error>)
        ensures
            old(self)@.state != ChannelState::Established ==> sealed == Err::<Vec<u8>, Error>(
                Error::ChannelState,
            ),
            old(self)@.state == ChannelState::Established && old(self)@.send_nonce == u64::MAX
                ==> sealed == Err::<Vec<u8>, Error>(Error::ChannelState),
            sealed is Err ==> final(self)@ == old(self)@,
            sealed is Ok ==> final(self)@ == (Channel {
                send_nonce: (old(self)@.send_nonce + 1) as u64,
                ..old(self)@
            }) && old(self)@.send_nonce < u64::MAX,
    {
        let (key, nonce) = match self.send_with() {
            Ok(with) => with,
            Err(error) => {
                return Err(error);
            },
        };
        let associated: Vec<u8> = Vec::new();
        let sealed = self.vault.encrypt(key, nonce, associated.as_slice(), plaintext);
        self.after_send(sealed)
    }

    /// The key and the nonce that the next message is sent with. There are
    /// none unless the channel is established and has send nonces left.
    pub fn send_with(&self) -> (with: Result<(SecretKeyHandle, u64), Error>)
        ensures
            match with {
                Ok((key, nonce)) => self@.state == ChannelState::Established && self@.send_key
                    == Some(key) && nonce == self@.send_nonce && nonce < u64::MAX,
                Err(error) => error == Error::ChannelState && (self@.state
                    != ChannelState::Established || self@.send_key is None || self@.send_nonce
                    == u64::MAX),
            },
    {
        if self.state != ChannelState::Established || self.send_nonce == u64::MAX {
            return Err(Error::ChannelState);
        }
        match self.send_key {
            Some(key) => Ok((key, self.send_nonce)),
            None => Err(Error::ChannelState),
        }
    }

    /// Takes note of what the vault made of a message to send: a ciphertext
    /// uses up the send nonce and is handed on as it is; a failure is handed
    /// on as it is and uses up nothing.
    fn after_send(&mut self, sealed: Result<Vec<u8>, Error>) -> (sent: Result<Vec<u8>, Error>)
        requires
            old(self)@.send_nonce < u64::MAX,
        ensures
            sent == sealed,
            sealed is Err ==> final(self)@ == old(self)@,
            sealed is Ok ==> final(self)@ == (Channel {
                send_nonce: (old(self)@.send_nonce + 1) as u64,
                ..old(self)@
            }),
    {
        if sealed.is_ok() {
            self.send_nonce = self.send_nonce + 1;
        }
        sealed
    }

    /// Checks and decrypts traffic from the peer. Each success uses up one
    /// receive nonce, so a ciphertext is accepted once and in order only.
    /// Outside `Established` the call fails with a channel-state error; a
    /// ciphertext that is not authentic is a protocol error. A failure
    /// leaves the channel as it was.
    pub fn decrypt(&mut self, ciphertext: &[u8]) -> (opened: Result<Vec<u8>, Error>)
        ensures
            old(self)@.state != ChannelState::Established ==> opened == Err::<Vec<u8>, Error>(
                Error::ChannelState,
            ),
            old(self)@.state == ChannelState::Established && old(self)@.receive_nonce == u64::MAX
                ==> opened == Err::<Vec<u8>, Error>(Error::ChannelState),
            opened is Err ==> final(self)@ == old(self)@ && (opened->Err_0 == Error::ChannelState
                || opened->Err_0 == Error::Protocol),
            opened is Ok ==> final(self)@ == (Channel {
                receive_nonce: (old(self)@.receive_nonce + 1) as u64,
                ..old(self)@
            }) && old(self)@.receive_nonce < u64::MAX,
    {
        let (key, nonce) = match self.receive_with() {
            Ok(with) => with,
            Err(error) => {
                return Err(error);
            },
        };
        let associated: Vec<u8> = Vec::new();
        let opened = self.vault.decrypt(key, nonce, associated.as_slice(), ciphertext);
        self.after_receive(opened)
    }

    /// The key and the nonce that the next message is received with. There
    /// are none unless the channel is established and has receive nonces left.
    pub fn receive_with(&self) -> (with: Result<(SecretKeyHandle, u64), Error>)
        ensures
            match with {
                Ok((key, nonce)) => self@.state == ChannelState::Established && self@.receive_key
                    == Some(key) && nonce == self@.receive_nonce && nonce < u64::MAX,
                Err(error) => error == Error::ChannelState && (self@.state
                    != ChannelState::Established || self@.receive_key is None
                    || self@.receive_nonce == u64::MAX),
            },
    {
        if self.state != ChannelState::Established || self.receive_nonce == u64::MAX {
            return Err(Error::ChannelState);
        }
        match self.receive_key {
            Some(key) => Ok((key, self.receive_nonce)),
            None => Err(Error::ChannelState),
        }
    }

    /// Takes note of what the vault made of a message received: a plaintext
    /// uses up the receive nonce and is handed on as it is; a refusal is a
    /// protocol error and uses up nothing.
    fn after_receive(&mut self, opened: Result<Vec<u8>, Error>) -> (received: Result<
        Vec<u8>,
        Error,
    >)
        requires
            old(self)@.receive_nonce < u64::MAX,
        ensures
            opened is Ok ==> received == opened && final(self)@ == (Channel {
                receive_nonce: (old(self)@.receive_nonce + 1) as u64,
                ..old(self)@
            }),
            opened is Err ==> received == Err::<Vec<u8>, Error>(Error::Protocol) && final(self)@
                == old(self)@,
    {
        match opened {
            Ok(plaintext) => {
                self.receive_nonce = self.receive_nonce + 1;
                Ok(plaintext)
            },
            Err(_) => Err(Error::Protocol),
        }
    }

    /// Records that the transport under the channel failed. That ends a
    /// channel that is not at its end already: its secrets are erased, their
    /// handles forgotten, and the channel is `Failed`. The call says whether
    /// it ended the channel.
    pub fn transport_failed(&mut self) -> (ended: bool)
        ensures
            stays_or_steps(old(self)@.state, final(self)@.state),
            ended == (old(self)@.state != ChannelState::Closed && old(self)@.state
                != ChannelState::Failed),
            !ended ==> final(self)@ == old(self)@,
            ended ==> final(self)@ == (Channel {
                state: ChannelState::Failed,
                failure: Some(Error::Transport),
                identity: None,
                ephemeral: None,
                chaining: None,
                handshake_key: None,
                send_key: None,
                receive_key: None,
                erased: old(self)@.erased.union(old(self)@.secrets()),
                ..old(self)@
            }),
    {
        match self.state {
            ChannelState::Closed => false,
            ChannelState::Failed => false,
            _ => {
                self.fail(Error::Transport);
                true
            },
        }
    }

    /// Closes an established channel: its session keys are erased and their
    /// handles forgotten. In any other state the call fails with a
    /// channel-state error and changes nothing.
    pub fn close(&mut self) -> (closed: Result<(), Error>)
        ensures
            stays_or_steps(old(self)@.state, final(self)@.state),
            old(self)@.state != ChannelState::Established ==> closed == Err::<(), Error>(
                Error::ChannelState,
            ) && final(self)@ == old(self)@,
            old(self)@.state == ChannelState::Established ==> closed == Ok::<(), Error>(())
                && final(self)@ == (Channel {
                state: ChannelState::Closed,
                identity: None,
                ephemeral: None,
                chaining: None,
                handshake_key: None,
                send_key: None,
                receive_key: None,
                erased: old(self)@.erased.union(old(self)@.secrets()),
                ..old(self)@
            }),
    {
        if self.state != ChannelState::Established {
            return Err(Error::ChannelState);
        }
        self.forget_all();
        self.state = ChannelState::Closed;
        Ok(())
    }
}

impl<V: Vault> ProcessMessage for ChannelManager<V> {
    /// The router's handler for channel addresses: the message waits for
    /// the next poll. The queue is not touched, and the node keeps going.
    fn process_message(&mut self, message: Message, queue: &mut MemQueue<Message>) -> (outcome:
        Result<bool, Error>)
        ensures
            outcome == Ok::<bool, Error>(true),
            *final(queue) == *old(queue),
            final(self)@ == (Channel { inbox: old(self)@.inbox.push(message@), ..old(self)@ }),
    {
        self.inbox.push(message);
        assert(self@.inbox =~= old(self)@.inbox.push(message@));
        Ok(true)
    }
}

impl<V: Vault> Poll for ChannelManager<V> {
    /// Handles the messages that wait, in the order they came, each as
    /// [`ChannelManager::on_message`] does. Nothing that happens to the
    /// channel stops the node.
    fn poll(&mut self, queue: &mut MemQueue<Message>) -> (outcome: Result<bool, Error>)
        ensures
            old(self)@.wf() ==> final(self)@.wf(),
            outcome == Ok::<bool, Error>(true),
            final(self)@.inbox == Seq::<MessageView>::empty(),
            final(self)@.channel == old(self)@.channel,
            final(self)@.owner == old(self)@.owner,
            final(self)@.send_nonce == old(self)@.send_nonce,
            advances(old(self)@.state, final(self)@.state),
            final(queue).limit() == old(queue).limit(),
            old(self)@.inbox.len() == 0 ==> final(self)@ == old(self)@ && *final(queue)
                == *old(queue),
            exists|states: Seq<Channel>, queues: Seq<MemQueue<Message>>|
                {
                    &&& #[trigger] handled_in_turn(old(self)@.inbox, states, queues)
                    &&& states[0] == (Channel { inbox: Seq::empty(), ..old(self)@ })
                    &&& queues[0] == *old(queue)
                    &&& states.last() == final(self)@
                    &&& queues.last() == *final(queue)
                },
    {
        let mut waiting: Vec<Message> = Vec::new();
        std::mem::swap(&mut self.inbox, &mut waiting);
        assert(self@.inbox =~= Seq::<MessageView>::empty());
        assert(old(self)@.inbox.len() == 0 ==> self@ == old(self)@) by {
            if old(self)@.inbox.len() == 0 {
                assert(old(self)@.inbox =~= Seq::<MessageView>::empty());
            }
        }
        let ghost messages = waiting@;
        let ghost mut states = seq![self@];
        let ghost mut queues = seq![*queue];
        for message in it: waiting
            invariant
                it.seq() == messages,
                message_views(messages) == old(self)@.inbox,
                old(self)@.wf() ==> self@.wf(),
                self@.inbox == Seq::<MessageView>::empty(),
                self@.channel == old(self)@.channel,
                self@.owner == old(self)@.owner,
                self@.send_nonce == old(self)@.send_nonce,
                advances(old(self)@.state, self@.state),
                queue.limit() == old(queue).limit(),
                messages.len() == 0 ==> self@ == old(self)@ && *queue == *old(queue),
                states.len() == it.index() + 1,
                queues.len() == it.index() + 1,
                states[0] == (Channel { inbox: Seq::empty(), ..old(self)@ }),
                queues[0] == *old(queue),
                states.last() == self@,
                queues.last() == *queue,
                forall|i: int|
                    #![trigger states[i]]
                    0 <= i < it.index() ==> handled(
                        states[i],
                        queues[i],
                        old(self)@.inbox[i],
                        states[i + 1],
                        queues[i + 1],
                    ),
        {
            self.on_message(message, queue);
            proof {
                states = states.push(self@);
                queues = queues.push(*queue);
            }
        }
        proof {
            assert(handled_in_turn(old(self)@.inbox, states, queues));
        }
        Ok(true)
    }
}

} // verus!
