use ockam_node::error::Error;
use ockam_node::vault::{
    FfiSecretAttributes, OckamVaultContext, SecretAttributes, SecretPersistence, SecretType,
    CURVE25519_SECRET_LENGTH,
};

#[test]
fn attributes_become_plain_numbers() {
    let attrs = SecretAttributes {
        stype: SecretType::Curve25519,
        persistence: SecretPersistence::Persistent,
        length: CURVE25519_SECRET_LENGTH,
    };
    let ffi = FfiSecretAttributes::from(attrs);
    assert_eq!(FfiSecretAttributes { length: 32, xtype: 2, persistence: 1 }, ffi);
    assert_eq!(Ok(attrs), ffi.to_attributes());
    assert_eq!(ffi, ffi.into_ffi_value());
}

#[test]
fn every_type_and_persistence_has_its_number() {
    let types = [SecretType::Buffer, SecretType::Aes, SecretType::Curve25519, SecretType::P256];
    for (number, stype) in types.iter().enumerate() {
        assert_eq!(number as u32, stype.to_u32());
        assert_eq!(Some(*stype), SecretType::from_u32(number as u32));
    }
    assert_eq!(None, SecretType::from_u32(4));
    assert_eq!(0, SecretPersistence::Ephemeral.to_u32());
    assert_eq!(1, SecretPersistence::Persistent.to_u32());
    assert_eq!(Some(SecretPersistence::Persistent), SecretPersistence::from_u32(1));
    assert_eq!(None, SecretPersistence::from_u32(2));
}

#[test]
fn numbers_that_stand_for_nothing_are_malformed() {
    let bad_type = FfiSecretAttributes { length: 16, xtype: 4, persistence: 0 };
    assert_eq!(Err(Error::Configuration), bad_type.to_attributes());
    let bad_persistence = FfiSecretAttributes { length: 16, xtype: 1, persistence: 2 };
    assert_eq!(Err(Error::Configuration), bad_persistence.to_attributes());
}

#[test]
fn default_is_three_zeros() {
    let ffi = FfiSecretAttributes::ffi_default();
    assert_eq!(FfiSecretAttributes { length: 0, xtype: 0, persistence: 0 }, ffi);
    assert_eq!(
        Ok(SecretAttributes {
            stype: SecretType::Buffer,
            persistence: SecretPersistence::Ephemeral,
            length: 0
        }),
        ffi.to_attributes()
    );
}

#[test]
fn long_lengths_keep_their_low_bits() {
    let attrs = SecretAttributes {
        stype: SecretType::Buffer,
        persistence: SecretPersistence::Ephemeral,
        length: usize::MAX,
    };
    assert_eq!(u32::MAX, FfiSecretAttributes::from(attrs).length);
}

#[test]
fn vault_context_is_plain_data() {
    let context = OckamVaultContext { handle: 7, vault_id: 1 };
    let copy = context;
    assert_eq!(context, copy);
}
