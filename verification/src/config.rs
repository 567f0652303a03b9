//! Process-local, immutable parameters of a proof system instance.
use vstd::prelude::*;

verus! {

#[derive(Clone, Copy, Debug, PartialEq, Eq, Structural)]
pub enum PolynomialCommitmentType {
    Raw,
    KZG,
    Orion,
    FRI,
}

#[derive(Clone, Copy, Debug, PartialEq, Eq, Structural)]
pub enum FieldType {
    M31,
    BabyBear,
    BN254,
    Msn61,
}

pub const SENTINEL_M31: [u8; 32] = [
    255, 255, 255, 127, 0, 0, 0, 0, 0, 0, 0, 0, 0, 0, 0, 0, 0, 0, 0, 0, 0, 0, 0, 0, 0, 0, 0, 0, 0,
    0, 0, 0,
];

pub const SENTINEL_BN254: [u8; 32] = [
    1, 0, 0, 240, 147, 245, 225, 67, 145, 112, 185, 121, 72, 232, 51, 40, 93, 88, 129, 129, 182,
    69, 80, 184, 41, 160, 49, 225, 114, 78, 100, 48,
];

#[derive(Clone, Copy, Debug, PartialEq, Eq, Structural)]
pub enum FiatShamirHashType {
    SHA256,
    Keccak256,
    Poseidon,
    Animoe,
    MIMC7,
}

#[derive(Clone, Copy, Debug, PartialEq, Eq, Structural)]
pub struct Config {
    pub num_repetitions: usize,
    pub field_size: usize,
    pub security_bits: usize,
    pub grinding_bits: usize,
    pub polynomial_commitment_type: PolynomialCommitmentType,
    pub field_type: FieldType,
    pub fs_hash: FiatShamirHashType,
}

/// The number of sumcheck repetitions that reach `security_bits` of soundness
/// with `grinding_bits` of grinding over a field of `field_size` bits:
/// `(security_bits - grinding_bits) / field_size`, rounded up.
pub open spec fn repetitions_needed(security_bits: int, grinding_bits: int, field_size: int) -> int {
    (security_bits - grinding_bits + field_size - 1) / field_size
}

/// The bit size of the elements of each field.
pub open spec fn field_bits(field_type: FieldType) -> int {
    match field_type {
        FieldType::M31 => 31,
        FieldType::BabyBear => 31,
        FieldType::BN254 => 254,
        FieldType::Msn61 => 61,
    }
}

impl Config {
    /// The parameters are usable: the field has bits, grinding stays below
    /// the security target and below the width of a machine word.
    pub open spec fn wf(&self) -> bool {
        &&& 0 < self.field_size <= 256
        &&& self.grinding_bits <= self.security_bits
        &&& self.grinding_bits < 64
        &&& self.polynomial_commitment_type == PolynomialCommitmentType::KZG ==> self.field_type
            == FieldType::BN254
    }

    /// Whether the parameters are usable.
    pub fn is_well_formed(&self) -> (b: bool)
        ensures
            b == self.wf(),
    {
        let kzg = match self.polynomial_commitment_type {
            PolynomialCommitmentType::KZG => true,
            _ => false,
        };
        let bn254 = match self.field_type {
            FieldType::BN254 => true,
            _ => false,
        };
        0 < self.field_size && self.field_size <= 256 && self.grinding_bits <= self.security_bits
            && self.grinding_bits < 64 && (!kzg || bn254)
    }

    /// See `repetitions_needed`.
    pub fn compute_num_repetitions(
        security_bits: usize,
        grinding_bits: usize,
        field_size: usize,
    ) -> (r: usize)
        requires
            field_size > 0,
            grinding_bits <= security_bits,
            security_bits + field_size <= usize::MAX,
        ensures
            r == repetitions_needed(security_bits as int, grinding_bits as int, field_size as int),
    {
        (security_bits - grinding_bits + field_size - 1) / field_size
    }

    /// Mersenne-31: 100 bits of security, 10 of them from grinding, and the
    /// three repetitions that the 31-bit field then needs.
    pub fn m31_config() -> (c: Config)
        ensures
            c == (Config {
                num_repetitions: 3,
                field_size: 31,
                security_bits: 100,
                grinding_bits: 10,
                polynomial_commitment_type: PolynomialCommitmentType::Raw,
                field_type: FieldType::M31,
                fs_hash: FiatShamirHashType::SHA256,
            }),
            c.num_repetitions == repetitions_needed(100, 10, field_bits(FieldType::M31)),
            c.wf(),
    {
        let security_bits: usize = 100;
        let grinding_bits: usize = 10;
        let field_type = FieldType::M31;
        let field_size: usize = match field_type {
            FieldType::M31 => 31,
            FieldType::BabyBear => 31,
            FieldType::BN254 => 254,
            FieldType::Msn61 => 61,
        };
        let num_repetitions = Config::compute_num_repetitions(
            security_bits,
            grinding_bits,
            field_size,
        );
        Config {
            num_repetitions,
            field_size,
            security_bits,
            grinding_bits,
            polynomial_commitment_type: PolynomialCommitmentType::Raw,
            field_type,
            fs_hash: FiatShamirHashType::SHA256,
        }
    }

    /// The degree-3 extension of Mersenne-31: its 93 bits need no repetition.
    pub fn m31_ext3_config() -> (c: Config)
        ensures
            c == (Config {
                num_repetitions: 1,
                field_size: 93,
                security_bits: 100,
                grinding_bits: 10,
                polynomial_commitment_type: PolynomialCommitmentType::Raw,
                field_type: FieldType::M31,
                fs_hash: FiatShamirHashType::SHA256,
            }),
            c.num_repetitions == repetitions_needed(100, 10, 93),
            c.wf(),
    {
        Config {
            num_repetitions: 1,
            field_size: 93,
            security_bits: 100,
            grinding_bits: 10,
            polynomial_commitment_type: PolynomialCommitmentType::Raw,
            field_type: FieldType::M31,
            fs_hash: FiatShamirHashType::SHA256,
        }
    }

    /// BN254: 128 bits of security without grinding, in one repetition.
    pub fn bn254_config() -> (c: Config)
        ensures
            c == (Config {
                num_repetitions: 1,
                field_size: 254,
                security_bits: 128,
                grinding_bits: 0,
                polynomial_commitment_type: PolynomialCommitmentType::Raw,
                field_type: FieldType::BN254,
                fs_hash: FiatShamirHashType::SHA256,
            }),
            c.num_repetitions == repetitions_needed(128, 0, field_bits(FieldType::BN254)),
            c.wf(),
    {
        Config {
            num_repetitions: 1,
            field_size: 254,
            security_bits: 128,
            grinding_bits: 0,
            polynomial_commitment_type: PolynomialCommitmentType::Raw,
            field_type: FieldType::BN254,
            fs_hash: FiatShamirHashType::SHA256,
        }
    }

    /// Mersenne-61: 128 bits of security without grinding, and the three
    /// repetitions that the 61-bit field then needs.
    pub fn msn61_config() -> (c: Config)
        ensures
            c == (Config {
                num_repetitions: 3,
                field_size: 61,
                security_bits: 128,
                grinding_bits: 0,
                polynomial_commitment_type: PolynomialCommitmentType::Raw,
                field_type: FieldType::Msn61,
                fs_hash: FiatShamirHashType::SHA256,
            }),
            c.num_repetitions == repetitions_needed(128, 0, field_bits(FieldType::Msn61)),
            c.wf(),
    {
        let security_bits: usize = 128;
        let grinding_bits: usize = 0;
        let field_size: usize = 61;
        let num_repetitions = Config::compute_num_repetitions(
            security_bits,
            grinding_bits,
            field_size,
        );
        Config {
            num_repetitions,
            field_size,
            security_bits,
            grinding_bits,
            polynomial_commitment_type: PolynomialCommitmentType::Raw,
            field_type: FieldType::Msn61,
            fs_hash: FiatShamirHashType::SHA256,
        }
    }

    /// The number of repetitions that the sumcheck runs.
    pub fn get_num_repetitions(&self) -> (r: usize)
        ensures
            r == self.num_repetitions,
    {
        self.num_repetitions
    }
}

impl Default for Config {
    fn default() -> (c: Config)
        ensures
            c == (Config {
                num_repetitions: 3,
                field_size: 31,
                security_bits: 100,
                grinding_bits: 10,
                polynomial_commitment_type: PolynomialCommitmentType::Raw,
                field_type: FieldType::M31,
                fs_hash: FiatShamirHashType::SHA256,
            }),
    {
        Config::m31_config()
    }
}

} // verus!
