//! The secret-management collaborator, as the node sees it.
//!
//! Secrets live in a vault and are named by opaque handles. The node asks
//! the vault to generate secrets, to compute with them, and to erase them;
//! it never reads a secret's bytes.

use crate::error::Error;
use vstd::prelude::*;

verus! {

/// The length of a Curve25519 secret, in bytes.
pub const CURVE25519_SECRET_LENGTH: usize = 32;

/// What a secret is for.
#[derive(Clone, Copy, Debug, PartialEq, Eq, Structural)]
pub enum SecretType {
    Buffer,
    Aes,
    Curve25519,
    P256,
}

/// How long a secret lives.
#[derive(Clone, Copy, Debug, PartialEq, Eq, Structural)]
pub enum SecretPersistence {
    Ephemeral,
    Persistent,
}

/// What kind of secret to generate.
#[derive(Clone, Copy, Debug, PartialEq, Eq, Structural)]
pub struct SecretAttributes {
    pub stype: SecretType,
    pub persistence: SecretPersistence,
    pub length: usize,
}

impl SecretType {
    /// The number that stands for this secret type.
    pub open spec fn number(self) -> u32 {
        match self {
            SecretType::Buffer => 0,
            SecretType::Aes => 1,
            SecretType::Curve25519 => 2,
            SecretType::P256 => 3,
        }
    }

    /// The secret type a number stands for, if any.
    pub open spec fn of_number(number: u32) -> Option<SecretType> {
        if number == 0 {
            Some(SecretType::Buffer)
        } else if number == 1 {
            Some(SecretType::Aes)
        } else if number == 2 {
            Some(SecretType::Curve25519)
        } else if number == 3 {
            Some(SecretType::P256)
        } else {
            None
        }
    }

    pub fn to_u32(self) -> (number: u32)
        ensures
            number == self.number(),
            SecretType::of_number(number) == Some(self),
    {
        match self {
            SecretType::Buffer => 0,
            SecretType::Aes => 1,
            SecretType::Curve25519 => 2,
            SecretType::P256 => 3,
        }
    }

    pub fn from_u32(number: u32) -> (stype: Option<SecretType>)
        ensures
            stype == SecretType::of_number(number),
    {
        if number == 0 {
            Some(SecretType::Buffer)
        } else if number == 1 {
            Some(SecretType::Aes)
        } else if number == 2 {
            Some(SecretType::Curve25519)
        } else if number == 3 {
            Some(SecretType::P256)
        } else {
            None
        }
    }
}

impl SecretPersistence {
    /// The number that stands for this persistence.
    pub open spec fn number(self) -> u32 {
        match self {
            SecretPersistence::Ephemeral => 0,
            SecretPersistence::Persistent => 1,
        }
    }

    /// The persistence a number stands for, if any.
    pub open spec fn of_number(number: u32) -> Option<SecretPersistence> {
        if number == 0 {
            Some(SecretPersistence::Ephemeral)
        } else if number == 1 {
            Some(SecretPersistence::Persistent)
        } else {
            None
        }
    }

    pub fn to_u32(self) -> (number: u32)
        ensures
            number == self.number(),
            SecretPersistence::of_number(number) == Some(self),
    {
        match self {
            SecretPersistence::Ephemeral => 0,
            SecretPersistence::Persistent => 1,
        }
    }

    pub fn from_u32(number: u32) -> (persistence: Option<SecretPersistence>)
        ensures
            persistence == SecretPersistence::of_number(number),
    {
        if number == 0 {
            Some(SecretPersistence::Ephemeral)
        } else if number == 1 {
            Some(SecretPersistence::Persistent)
        } else {
            None
        }
    }
}

/// Secret attributes as three plain numbers, as they cross a language boundary.
#[derive(Clone, Copy, Debug, PartialEq, Eq, Structural)]
pub struct FfiSecretAttributes {
    pub length: u32,
    pub xtype: u32,
    pub persistence: u32,
}

/// The attributes that three plain numbers stand for, if they stand for any.
pub open spec fn attributes_of(attrs: FfiSecretAttributes) -> Option<SecretAttributes> {
    match (SecretType::of_number(attrs.xtype), SecretPersistence::of_number(attrs.persistence)) {
        (Some(stype), Some(persistence)) => Some(
            SecretAttributes { stype, persistence, length: attrs.length as usize },
        ),
        _ => None,
    }
}

/// The three plain numbers that stand for `attrs`.
pub open spec fn plain_numbers(attrs: SecretAttributes) -> FfiSecretAttributes {
    FfiSecretAttributes {
        length: (attrs.length as int % 0x1_0000_0000) as u32,
        xtype: attrs.stype.number(),
        persistence: attrs.persistence.number(),
    }
}

impl From<SecretAttributes> for FfiSecretAttributes {
    /// The attributes as plain numbers. Of a length only the low 32 bits are kept.
    fn from(attrs: SecretAttributes) -> (ffi: FfiSecretAttributes) {
        FfiSecretAttributes {
            length: (attrs.length as u64 % 0x1_0000_0000) as u32,
            xtype: attrs.stype.to_u32(),
            persistence: attrs.persistence.to_u32(),
        }
    }
}

impl vstd::std_specs::convert::FromSpecImpl<SecretAttributes> for FfiSecretAttributes {
    open spec fn obeys_from_spec() -> bool {
        true
    }

    open spec fn from_spec(attrs: SecretAttributes) -> FfiSecretAttributes {
        plain_numbers(attrs)
    }
}

impl FfiSecretAttributes {
    /// The attributes that the three numbers stand for. Numbers that stand
    /// for no secret type or no persistence are refused as malformed.
    pub fn to_attributes(&self) -> (attrs: Result<SecretAttributes, Error>)
        ensures
            match attributes_of(*self) {
                Some(attributes) => attrs == Ok::<SecretAttributes, Error>(attributes),
                None => attrs == Err::<SecretAttributes, Error>(Error::Configuration),
            },
    {
        match (SecretType::from_u32(self.xtype), SecretPersistence::from_u32(self.persistence)) {
            (Some(stype), Some(persistence)) => Ok(
                SecretAttributes { stype, persistence, length: self.length as usize },
            ),
            _ => Err(Error::Configuration),
        }
    }

    /// The value that stands for "no attributes": three zeros.
    pub fn ffi_default() -> (ffi: FfiSecretAttributes)
        ensures
            ffi == (FfiSecretAttributes { length: 0, xtype: 0, persistence: 0 }),
    {
        FfiSecretAttributes { length: 0, xtype: 0, persistence: 0 }
    }

    /// The value itself: it crosses a language boundary as it is.
    pub fn into_ffi_value(self) -> (ffi: FfiSecretAttributes)
        ensures
            ffi == self,
    {
        self
    }
}

/// Converting attributes to plain numbers and back gives the same
/// attributes, as long as the length fits 32 bits.
pub proof fn lemma_attributes_round_trip(attrs: SecretAttributes)
    requires
        attrs.length <= u32::MAX,
    ensures
        attributes_of(plain_numbers(attrs)) == Some(attrs),
{
}

/// Represents a Vault id
pub type VaultId = u32;

/// Represents a Vault handle
pub type VaultHandle = u64;

/// Represents a handle id for the secret key
pub type SecretKeyHandle = u64;

/// Names a vault across a language boundary.
#[derive(Clone, Copy, Debug, PartialEq, Eq, Structural)]
pub struct OckamVaultContext {
    pub handle: VaultHandle,
    pub vault_id: VaultId,
}

/// What the node asks of a vault. Secrets are named by handles; the vault
/// alone knows what they hold.
pub trait Vault {
    /// Generates a secret and returns its handle.
    fn generate_secret(&mut self, attributes: SecretAttributes) -> Result<SecretKeyHandle, Error>;

    /// The public key that belongs to a secret.
    fn public_key_of(&mut self, secret: SecretKeyHandle) -> Result<Vec<u8>, Error>;

    /// Erases a secret. Its handle names nothing afterwards.
    fn erase(&mut self, secret: SecretKeyHandle);

    /// The secret that `secret` and the peer's public key agree on.
    fn diffie_hellman(&mut self, secret: SecretKeyHandle, peer_public_key: &[u8]) -> Result<
        SecretKeyHandle,
        Error,
    >;

    /// The hash of `data`.
    fn hash(&mut self, data: &[u8]) -> Vec<u8>;

    /// Derives two secrets from a chaining secret and an input secret. Without
    /// a chaining secret the chain starts afresh; without an input secret
    /// the chain is split into its two final secrets.
    fn derive(
        &mut self,
        chaining: Option<SecretKeyHandle>,
        input: Option<SecretKeyHandle>,
    ) -> Result<(SecretKeyHandle, SecretKeyHandle), Error>;

    /// Encrypts and authenticates `plaintext`, bound to `nonce` and `associated`.
    fn encrypt(
        &mut self,
        key: SecretKeyHandle,
        nonce: u64,
        associated: &[u8],
        plaintext: &[u8],
    ) -> Result<Vec<u8>, Error>;

    /// Checks and decrypts `ciphertext`, bound to `nonce` and `associated`.
    /// A ciphertext that was not made with that key, nonce and associated
    /// data is refused.
    fn decrypt(
        &mut self,
        key: SecretKeyHandle,
        nonce: u64,
        associated: &[u8],
        ciphertext: &[u8],
    ) -> Result<Vec<u8>, Error>;
}

} // verus!
