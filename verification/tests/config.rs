use expander_rs::{Config, FiatShamirHashType, FieldType, PolynomialCommitmentType};

#[test]
fn num_repetitions_for_mersenne_31() {
    let config = Config::m31_config();
    assert_eq!(config.security_bits, 100);
    assert_eq!(config.grinding_bits, 10);
    assert_eq!(config.field_size, 31);
    assert_eq!(config.get_num_repetitions(), 3);
    assert_eq!(Config::compute_num_repetitions(100, 10, 31), 3);
}

#[test]
fn num_repetitions_for_bn254() {
    let config = Config::bn254_config();
    assert_eq!(config.security_bits, 128);
    assert_eq!(config.grinding_bits, 0);
    assert_eq!(config.field_size, 254);
    assert_eq!(config.get_num_repetitions(), 1);
    assert_eq!(Config::compute_num_repetitions(128, 0, 254), 1);
}

#[test]
fn num_repetitions_rounds_up() {
    assert_eq!(Config::compute_num_repetitions(90, 0, 31), 3);
    assert_eq!(Config::compute_num_repetitions(93, 0, 31), 3);
    assert_eq!(Config::compute_num_repetitions(94, 0, 31), 4);
    assert_eq!(Config::compute_num_repetitions(10, 10, 31), 0);
    assert_eq!(Config::compute_num_repetitions(128, 0, 61), 3);
}

#[test]
fn named_configurations() {
    let ext = Config::m31_ext3_config();
    assert_eq!(ext.field_size, 93);
    assert_eq!(ext.num_repetitions, 1);
    assert_eq!(ext.field_type, FieldType::M31);
    let msn = Config::msn61_config();
    assert_eq!(msn.field_size, 61);
    assert_eq!(msn.security_bits, 128);
    assert_eq!(msn.grinding_bits, 0);
    assert_eq!(msn.num_repetitions, 3);
    assert_eq!(msn.field_type, FieldType::Msn61);
    let bn = Config::bn254_config();
    assert_eq!(bn.field_type, FieldType::BN254);
    assert_eq!(bn.polynomial_commitment_type, PolynomialCommitmentType::Raw);
    assert_eq!(bn.fs_hash, FiatShamirHashType::SHA256);
    assert_eq!(Config::default(), Config::m31_config());
}

#[test]
fn mersenne_61_needs_three_repetitions() {
    let config = Config::msn61_config();
    assert_eq!(config.get_num_repetitions(), 3);
    assert_eq!(
        config.get_num_repetitions(),
        Config::compute_num_repetitions(config.security_bits, config.grinding_bits, config.field_size)
    );
}

#[test]
fn configurations_are_validated() {
    assert!(Config::m31_config().is_well_formed());
    assert!(Config::m31_ext3_config().is_well_formed());
    assert!(Config::bn254_config().is_well_formed());
    assert!(Config::msn61_config().is_well_formed());
    let kzg_over_bn254 = Config {
        polynomial_commitment_type: PolynomialCommitmentType::KZG,
        ..Config::bn254_config()
    };
    assert!(kzg_over_bn254.is_well_formed());
    let kzg_over_m31 = Config {
        polynomial_commitment_type: PolynomialCommitmentType::KZG,
        ..Config::m31_config()
    };
    assert!(!kzg_over_m31.is_well_formed());
    assert!(!Config { field_size: 0, ..Config::m31_config() }.is_well_formed());
    assert!(!Config { field_size: 257, ..Config::m31_config() }.is_well_formed());
    assert!(!Config { grinding_bits: 101, ..Config::m31_config() }.is_well_formed());
    assert!(!Config { grinding_bits: 64, security_bits: 128, ..Config::m31_config() }
        .is_well_formed());
}
