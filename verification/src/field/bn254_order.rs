//! The order of the two-adic generator of the BN254 scalar field: squared 28
//! times over it gives one. Every squaring is checked on the integers.
use crate::field::algebra::lemma_squared_times;
use crate::field::bn254::{lemma_fr_of_value, modulus, Fr};
use crate::field::modular::mul_mod;
use crate::field::{pow2, FieldArith, TwoAdicField};
use vstd::prelude::*;

verus! {

/// The generator squared `i` times over, for `i` up to 28.
pub open spec fn generator_squared(i: nat) -> Fr {
    if i == 0 {
        Fr {
            l0: 0xd34f1ed960c37c9c,
            l1: 0x3215cf6dd39329c8,
            l2: 0x98865ea93dd31f74,
            l3: 0x03ddb9f5166d18b7,
        }
    } else     if i == 1 {
        Fr {
            l0: 0x998550aa8f948006,
            l1: 0x08d6377ca2f0e806,
            l2: 0x5258ffea8d1604d4,
            l3: 0x148e611dd90e580c,
        }
    } else     if i == 2 {
        Fr {
            l0: 0xc75090cc6cc7ec97,
            l1: 0x24395c43b9227b96,
            l2: 0xe29a9039aca3c0e5,
            l3: 0x1dba8b5bdd64ef6c,
        }
    } else     if i == 3 {
        Fr {
            l0: 0x3f94c217303dd160,
            l1: 0x262b9af83acb9e00,
            l2: 0xa8ed16c17adaae39,
            l3: 0x0d94d63997367c97,
        }
    } else     if i == 4 {
        Fr {
            l0: 0x821df86636c0facb,
            l1: 0x036f5ba978c050f2,
            l2: 0x6e47a6075066a50a,
            l3: 0x1951441010b2b95a,
        }
    } else     if i == 5 {
        Fr {
            l0: 0x1c223be65bc60863,
            l1: 0xa4adb9269cbfd7c4,
            l2: 0xba2008fe823128be,
            l3: 0x1283ba6f4b7b1a76,
        }
    } else     if i == 6 {
        Fr {
            l0: 0x4dd654168326bede,
            l1: 0xffcec5347f16e91b,
            l2: 0xa1b30fd7923947c5,
            l3: 0x18c95f1ae6514e11,
        }
    } else     if i == 7 {
        Fr {
            l0: 0x747b5c96639659bb,
            l1: 0xbdcaa463f4442a52,
            l2: 0x0828c7285d0258e1,
            l3: 0x032750f8f3c2493d,
        }
    } else     if i == 8 {
        Fr {
            l0: 0x2f0e1e3182673378,
            l1: 0x745e39fada049d5b,
            l2: 0x856402b62520e670,
            l3: 0x2a14464f1ff42de3,
        }
    } else     if i == 9 {
        Fr {
            l0: 0x14cc0193568fc082,
            l1: 0xb123f767e4b0883d,
            l2: 0xcbb67d11a4077806,
            l3: 0x0cf1526aaafac6ba,
        }
    } else     if i == 10 {
        Fr {
            l0: 0x26a9fcf88ddbfebe,
            l1: 0xd60d06a05216231b,
            l2: 0x79b2d39267945f6b,
            l3: 0x0f60c8fe0414cb93,
        }
    } else     if i == 11 {
        Fr {
            l0: 0x8db819c179c2c3ea,
            l1: 0xe7ea6b06a7f266ef,
            l2: 0x054e981a27ed7706,
            l3: 0x304cd1e79cfa5b0f,
        }
    } else     if i == 12 {
        Fr {
            l0: 0xbabd582133584b29,
            l1: 0xa5f5d8fb89091c3a,
            l2: 0x23e49ace3f647643,
            l3: 0x09d2cc4b5782fbe9,
        }
    } else     if i == 13 {
        Fr {
            l0: 0xf0acd0b96a8a942e,
            l1: 0xcb511871e4d44a65,
            l2: 0x6530b94d3120ce6f,
            l3: 0x2b7ddfe4383c8d80,
        }
    } else     if i == 14 {
        Fr {
            l0: 0x9119dbe6eaab3cac,
            l1: 0xd626d9ca335d73a0,
            l2: 0x2aa212849e9a0c07,
            l3: 0x2337acd19f40bf2b,
        }
    } else     if i == 15 {
        Fr {
            l0: 0x12b179af67f67ae1,
            l1: 0x03bd0ed25881f9ed,
            l2: 0x35a1bb49f23d81aa,
            l3: 0x10e3d295c1599ff5,
        }
    } else     if i == 16 {
        Fr {
            l0: 0x251aa6161f2e6ee6,
            l1: 0x38aa810773efee2a,
            l2: 0xa9953f60087a4232,
            l3: 0x2f6122bbf1d35fda,
        }
    } else     if i == 17 {
        Fr {
            l0: 0x060bc04a4172705f,
            l1: 0xfa6c01aa0f53557b,
            l2: 0x74db4b3f7d4a5694,
            l3: 0x14c60185e75885d6,
        }
    } else     if i == 18 {
        Fr {
            l0: 0xbd08d99309c4bb7d,
            l1: 0xb135ea330f1b1573,
            l2: 0x19f77c5cf2cbd2de,
            l3: 0x2ad9021ed07c42ab,
        }
    } else     if i == 19 {
        Fr {
            l0: 0x73af7ff4e4fc88fc,
            l1: 0x165b61281e9054a1,
            l2: 0x5d2a33029bc807ac,
            l3: 0x0dd30b9ad8c17355,
        }
    } else     if i == 20 {
        Fr {
            l0: 0x6692cc1e5a526c81,
            l1: 0xd8675a9e5dd2336a,
            l2: 0x820b96ff0a13f2db,
            l3: 0x1058a83d529be585,
        }
    } else     if i == 21 {
        Fr {
            l0: 0x8c9e954b942e6d6b,
            l1: 0x3df9cff80535c8d0,
            l2: 0x49f7a010aeec0dae,
            l3: 0x2822ef9d2d155c2b,
        }
    } else     if i == 22 {
        Fr {
            l0: 0x684cfa8ede70fdc7,
            l1: 0xe18d1d2452d64bd2,
            l2: 0xf6036a4037c3aa6a,
            l3: 0x1c4c3a258629905e,
        }
    } else     if i == 23 {
        Fr {
            l0: 0x3eed4c533bb512d0,
            l1: 0x9c18d51b838eeb1d,
            l2: 0x9678200d47c0b2a9,
            l3: 0x09c532c6306b93d2,
        }
    } else     if i == 24 {
        Fr {
            l0: 0xb11509c6e306460b,
            l1: 0x996dfbe1174efb98,
            l2: 0x1c6e4f4594dd508c,
            l3: 0x21082ca216cbbf4e,
        }
    } else     if i == 25 {
        Fr {
            l0: 0x948dad4ac1bd5e80,
            l1: 0x52627366f8170a0a,
            l2: 0xec9b9e2f96afef36,
            l3: 0x2b337de1c8c14f22,
        }
    } else     if i == 26 {
        Fr {
            l0: 0x231204708f703636,
            l1: 0x5cea24f6fd736bec,
            l2: 0x048b6e193fd84104,
            l3: 0x30644e72e131a029,
        }
    } else     if i == 27 {
        Fr {
            l0: 0x43e1f593f0000000,
            l1: 0x2833e84879b97091,
            l2: 0xb85045b68181585d,
            l3: 0x30644e72e131a029,
        }
    } else {
        Fr { l0: 1, l1: 0, l2: 0, l3: 0 }
    }
}

/// The value of an element, with the weights of the limbs written out.
proof fn lemma_value_literal(x: Fr)
    ensures
        x.value() == x.l0 as int + 0x1_0000_0000_0000_0000 * (x.l1 as int)
            + 0x1_0000_0000_0000_0000_0000_0000_0000_0000 * (x.l2 as int)
            + 0x1_0000_0000_0000_0000_0000_0000_0000_0000_0000_0000_0000_0000 * (x.l3 as int),
{
    let b = crate::field::bn254::limb_base();
    assert(b * b == 0x1_0000_0000_0000_0000_0000_0000_0000_0000int && b * b * b
        == 0x1_0000_0000_0000_0000_0000_0000_0000_0000_0000_0000_0000_0000int) by (nonlinear_arith)
        requires
            b == 0x1_0000_0000_0000_0000int,
    ;
}

/// Where the square of the value of `a` has the residue that is the value
/// of `b`, the square of `a` is `b`.
proof fn lemma_square_step(a: Fr, b: Fr, va: int, vb: int)
    requires
        a.value() == va,
        b.value() == vb,
        0 <= vb < modulus(),
        mul_mod(va, va, modulus()) == vb,
    ensures
        a.spec_mul(a) == b,
        b.wf(),
{
    lemma_fr_of_value(b);
}

proof fn lemma_square_0()
    ensures
        generator_squared(0).spec_mul(generator_squared(0)) == generator_squared(1),
        generator_squared(1).wf(),
{
    let a = generator_squared(0);
    let b = generator_squared(1);
    lemma_value_literal(a);
    lemma_value_literal(b);
    let va = a.value();
    let vb = b.value();
    assert(mul_mod(va, va, modulus()) == vb) by (nonlinear_arith)
        requires
            va == 0x03ddb9f5166d18b798865ea93dd31f743215cf6dd39329c8d34f1ed960c37c9cint,
            vb == 0x148e611dd90e580c5258ffea8d1604d408d6377ca2f0e806998550aa8f948006int,
            modulus() == 0x30644e72e131a029b85045b68181585d2833e84879b9709143e1f593f0000001int,
    ;
    lemma_square_step(a, b, va, vb);
}

proof fn lemma_square_1()
    ensures
        generator_squared(1).spec_mul(generator_squared(1)) == generator_squared(2),
        generator_squared(2).wf(),
{
    let a = generator_squared(1);
    let b = generator_squared(2);
    lemma_value_literal(a);
    lemma_value_literal(b);
    let va = a.value();
    let vb = b.value();
    assert(mul_mod(va, va, modulus()) == vb) by (nonlinear_arith)
        requires
            va == 0x148e611dd90e580c5258ffea8d1604d408d6377ca2f0e806998550aa8f948006int,
            vb == 0x1dba8b5bdd64ef6ce29a9039aca3c0e524395c43b9227b96c75090cc6cc7ec97int,
            modulus() == 0x30644e72e131a029b85045b68181585d2833e84879b9709143e1f593f0000001int,
    ;
    lemma_square_step(a, b, va, vb);
}

proof fn lemma_square_2()
    ensures
        generator_squared(2).spec_mul(generator_squared(2)) == generator_squared(3),
        generator_squared(3).wf(),
{
    let a = generator_squared(2);
    let b = generator_squared(3);
    lemma_value_literal(a);
    lemma_value_literal(b);
    let va = a.value();
    let vb = b.value();
    assert(mul_mod(va, va, modulus()) == vb) by (nonlinear_arith)
        requires
            va == 0x1dba8b5bdd64ef6ce29a9039aca3c0e524395c43b9227b96c75090cc6cc7ec97int,
            vb == 0x0d94d63997367c97a8ed16c17adaae39262b9af83acb9e003f94c217303dd160int,
            modulus() == 0x30644e72e131a029b85045b68181585d2833e84879b9709143e1f593f0000001int,
    ;
    lemma_square_step(a, b, va, vb);
}

proof fn lemma_square_3()
    ensures
        generator_squared(3).spec_mul(generator_squared(3)) == generator_squared(4),
        generator_squared(4).wf(),
{
    let a = generator_squared(3);
    let b = generator_squared(4);
    lemma_value_literal(a);
    lemma_value_literal(b);
    let va = a.value();
    let vb = b.value();
    assert(mul_mod(va, va, modulus()) == vb) by (nonlinear_arith)
        requires
            va == 0x0d94d63997367c97a8ed16c17adaae39262b9af83acb9e003f94c217303dd160int,
            vb == 0x1951441010b2b95a6e47a6075066a50a036f5ba978c050f2821df86636c0facbint,
            modulus() == 0x30644e72e131a029b85045b68181585d2833e84879b9709143e1f593f0000001int,
    ;
    lemma_square_step(a, b, va, vb);
}

proof fn lemma_square_4()
    ensures
        generator_squared(4).spec_mul(generator_squared(4)) == generator_squared(5),
        generator_squared(5).wf(),
{
    let a = generator_squared(4);
    let b = generator_squared(5);
    lemma_value_literal(a);
    lemma_value_literal(b);
    let va = a.value();
    let vb = b.value();
    assert(mul_mod(va, va, modulus()) == vb) by (nonlinear_arith)
        requires
            va == 0x1951441010b2b95a6e47a6075066a50a036f5ba978c050f2821df86636c0facbint,
            vb == 0x1283ba6f4b7b1a76ba2008fe823128bea4adb9269cbfd7c41c223be65bc60863int,
            modulus() == 0x30644e72e131a029b85045b68181585d2833e84879b9709143e1f593f0000001int,
    ;
    lemma_square_step(a, b, va, vb);
}

proof fn lemma_square_5()
    ensures
        generator_squared(5).spec_mul(generator_squared(5)) == generator_squared(6),
        generator_squared(6).wf(),
{
    let a = generator_squared(5);
    let b = generator_squared(6);
    lemma_value_literal(a);
    lemma_value_literal(b);
    let va = a.value();
    let vb = b.value();
    assert(mul_mod(va, va, modulus()) == vb) by (nonlinear_arith)
        requires
            va == 0x1283ba6f4b7b1a76ba2008fe823128bea4adb9269cbfd7c41c223be65bc60863int,
            vb == 0x18c95f1ae6514e11a1b30fd7923947c5ffcec5347f16e91b4dd654168326bedeint,
            modulus() == 0x30644e72e131a029b85045b68181585d2833e84879b9709143e1f593f0000001int,
    ;
    lemma_square_step(a, b, va, vb);
}

proof fn lemma_square_6()
    ensures
        generator_squared(6).spec_mul(generator_squared(6)) == generator_squared(7),
        generator_squared(7).wf(),
{
    let a = generator_squared(6);
    let b = generator_squared(7);
    lemma_value_literal(a);
    lemma_value_literal(b);
    let va = a.value();
    let vb = b.value();
    assert(mul_mod(va, va, modulus()) == vb) by (nonlinear_arith)
        requires
            va == 0x18c95f1ae6514e11a1b30fd7923947c5ffcec5347f16e91b4dd654168326bedeint,
            vb == 0x032750f8f3c2493d0828c7285d0258e1bdcaa463f4442a52747b5c96639659bbint,
            modulus() == 0x30644e72e131a029b85045b68181585d2833e84879b9709143e1f593f0000001int,
    ;
    lemma_square_step(a, b, va, vb);
}

proof fn lemma_square_7()
    ensures
        generator_squared(7).spec_mul(generator_squared(7)) == generator_squared(8),
        generator_squared(8).wf(),
{
    let a = generator_squared(7);
    let b = generator_squared(8);
    lemma_value_literal(a);
    lemma_value_literal(b);
    let va = a.value();
    let vb = b.value();
    assert(mul_mod(va, va, modulus()) == vb) by (nonlinear_arith)
        requires
            va == 0x032750f8f3c2493d0828c7285d0258e1bdcaa463f4442a52747b5c96639659bbint,
            vb == 0x2a14464f1ff42de3856402b62520e670745e39fada049d5b2f0e1e3182673378int,
            modulus() == 0x30644e72e131a029b85045b68181585d2833e84879b9709143e1f593f0000001int,
    ;
    lemma_square_step(a, b, va, vb);
}

proof fn lemma_square_8()
    ensures
        generator_squared(8).spec_mul(generator_squared(8)) == generator_squared(9),
        generator_squared(9).wf(),
{
    let a = generator_squared(8);
    let b = generator_squared(9);
    lemma_value_literal(a);
    lemma_value_literal(b);
    let va = a.value();
    let vb = b.value();
    assert(mul_mod(va, va, modulus()) == vb) by (nonlinear_arith)
        requires
            va == 0x2a14464f1ff42de3856402b62520e670745e39fada049d5b2f0e1e3182673378int,
            vb == 0x0cf1526aaafac6bacbb67d11a4077806b123f767e4b0883d14cc0193568fc082int,
            modulus() == 0x30644e72e131a029b85045b68181585d2833e84879b9709143e1f593f0000001int,
    ;
    lemma_square_step(a, b, va, vb);
}

proof fn lemma_square_9()
    ensures
        generator_squared(9).spec_mul(generator_squared(9)) == generator_squared(10),
        generator_squared(10).wf(),
{
    let a = generator_squared(9);
    let b = generator_squared(10);
    lemma_value_literal(a);
    lemma_value_literal(b);
    let va = a.value();
    let vb = b.value();
    assert(mul_mod(va, va, modulus()) == vb) by (nonlinear_arith)
        requires
            va == 0x0cf1526aaafac6bacbb67d11a4077806b123f767e4b0883d14cc0193568fc082int,
            vb == 0x0f60c8fe0414cb9379b2d39267945f6bd60d06a05216231b26a9fcf88ddbfebeint,
            modulus() == 0x30644e72e131a029b85045b68181585d2833e84879b9709143e1f593f0000001int,
    ;
    lemma_square_step(a, b, va, vb);
}

proof fn lemma_square_10()
    ensures
        generator_squared(10).spec_mul(generator_squared(10)) == generator_squared(11),
        generator_squared(11).wf(),
{
    let a = generator_squared(10);
    let b = generator_squared(11);
    lemma_value_literal(a);
    lemma_value_literal(b);
    let va = a.value();
    let vb = b.value();
    assert(mul_mod(va, va, modulus()) == vb) by (nonlinear_arith)
        requires
            va == 0x0f60c8fe0414cb9379b2d39267945f6bd60d06a05216231b26a9fcf88ddbfebeint,
            vb == 0x304cd1e79cfa5b0f054e981a27ed7706e7ea6b06a7f266ef8db819c179c2c3eaint,
            modulus() == 0x30644e72e131a029b85045b68181585d2833e84879b9709143e1f593f0000001int,
    ;
    lemma_square_step(a, b, va, vb);
}

proof fn lemma_square_11()
    ensures
        generator_squared(11).spec_mul(generator_squared(11)) == generator_squared(12),
        generator_squared(12).wf(),
{
    let a = generator_squared(11);
    let b = generator_squared(12);
    lemma_value_literal(a);
    lemma_value_literal(b);
    let va = a.value();
    let vb = b.value();
    assert(mul_mod(va, va, modulus()) == vb) by (nonlinear_arith)
        requires
            va == 0x304cd1e79cfa5b0f054e981a27ed7706e7ea6b06a7f266ef8db819c179c2c3eaint,
            vb == 0x09d2cc4b5782fbe923e49ace3f647643a5f5d8fb89091c3ababd582133584b29int,
            modulus() == 0x30644e72e131a029b85045b68181585d2833e84879b9709143e1f593f0000001int,
    ;
    lemma_square_step(a, b, va, vb);
}

proof fn lemma_square_12()
    ensures
        generator_squared(12).spec_mul(generator_squared(12)) == generator_squared(13),
        generator_squared(13).wf(),
{
    let a = generator_squared(12);
    let b = generator_squared(13);
    lemma_value_literal(a);
    lemma_value_literal(b);
    let va = a.value();
    let vb = b.value();
    assert(mul_mod(va, va, modulus()) == vb) by (nonlinear_arith)
        requires
            va == 0x09d2cc4b5782fbe923e49ace3f647643a5f5d8fb89091c3ababd582133584b29int,
            vb == 0x2b7ddfe4383c8d806530b94d3120ce6fcb511871e4d44a65f0acd0b96a8a942eint,
            modulus() == 0x30644e72e131a029b85045b68181585d2833e84879b9709143e1f593f0000001int,
    ;
    lemma_square_step(a, b, va, vb);
}

proof fn lemma_square_13()
    ensures
        generator_squared(13).spec_mul(generator_squared(13)) == generator_squared(14),
        generator_squared(14).wf(),
{
    let a = generator_squared(13);
    let b = generator_squared(14);
    lemma_value_literal(a);
    lemma_value_literal(b);
    let va = a.value();
    let vb = b.value();
    assert(mul_mod(va, va, modulus()) == vb) by (nonlinear_arith)
        requires
            va == 0x2b7ddfe4383c8d806530b94d3120ce6fcb511871e4d44a65f0acd0b96a8a942eint,
            vb == 0x2337acd19f40bf2b2aa212849e9a0c07d626d9ca335d73a09119dbe6eaab3cacint,
            modulus() == 0x30644e72e131a029b85045b68181585d2833e84879b9709143e1f593f0000001int,
    ;
    lemma_square_step(a, b, va, vb);
}

proof fn lemma_square_14()
    ensures
        generator_squared(14).spec_mul(generator_squared(14)) == generator_squared(15),
        generator_squared(15).wf(),
{
    let a = generator_squared(14);
    let b = generator_squared(15);
    lemma_value_literal(a);
    lemma_value_literal(b);
    let va = a.value();
    let vb = b.value();
    assert(mul_mod(va, va, modulus()) == vb) by (nonlinear_arith)
        requires
            va == 0x2337acd19f40bf2b2aa212849e9a0c07d626d9ca335d73a09119dbe6eaab3cacint,
            vb == 0x10e3d295c1599ff535a1bb49f23d81aa03bd0ed25881f9ed12b179af67f67ae1int,
            modulus() == 0x30644e72e131a029b85045b68181585d2833e84879b9709143e1f593f0000001int,
    ;
    lemma_square_step(a, b, va, vb);
}

proof fn lemma_square_15()
    ensures
        generator_squared(15).spec_mul(generator_squared(15)) == generator_squared(16),
        generator_squared(16).wf(),
{
    let a = generator_squared(15);
    let b = generator_squared(16);
    lemma_value_literal(a);
    lemma_value_literal(b);
    let va = a.value();
    let vb = b.value();
    assert(mul_mod(va, va, modulus()) == vb) by (nonlinear_arith)
        requires
            va == 0x10e3d295c1599ff535a1bb49f23d81aa03bd0ed25881f9ed12b179af67f67ae1int,
            vb == 0x2f6122bbf1d35fdaa9953f60087a423238aa810773efee2a251aa6161f2e6ee6int,
            modulus() == 0x30644e72e131a029b85045b68181585d2833e84879b9709143e1f593f0000001int,
    ;
    lemma_square_step(a, b, va, vb);
}

proof fn lemma_square_16()
    ensures
        generator_squared(16).spec_mul(generator_squared(16)) == generator_squared(17),
        generator_squared(17).wf(),
{
    let a = generator_squared(16);
    let b = generator_squared(17);
    lemma_value_literal(a);
    lemma_value_literal(b);
    let va = a.value();
    let vb = b.value();
    assert(mul_mod(va, va, modulus()) == vb) by (nonlinear_arith)
        requires
            va == 0x2f6122bbf1d35fdaa9953f60087a423238aa810773efee2a251aa6161f2e6ee6int,
            vb == 0x14c60185e75885d674db4b3f7d4a5694fa6c01aa0f53557b060bc04a4172705fint,
            modulus() == 0x30644e72e131a029b85045b68181585d2833e84879b9709143e1f593f0000001int,
    ;
    lemma_square_step(a, b, va, vb);
}

proof fn lemma_square_17()
    ensures
        generator_squared(17).spec_mul(generator_squared(17)) == generator_squared(18),
        generator_squared(18).wf(),
{
    let a = generator_squared(17);
    let b = generator_squared(18);
    lemma_value_literal(a);
    lemma_value_literal(b);
    let va = a.value();
    let vb = b.value();
    assert(mul_mod(va, va, modulus()) == vb) by (nonlinear_arith)
        requires
            va == 0x14c60185e75885d674db4b3f7d4a5694fa6c01aa0f53557b060bc04a4172705fint,
            vb == 0x2ad9021ed07c42ab19f77c5cf2cbd2deb135ea330f1b1573bd08d99309c4bb7dint,
            modulus() == 0x30644e72e131a029b85045b68181585d2833e84879b9709143e1f593f0000001int,
    ;
    lemma_square_step(a, b, va, vb);
}

proof fn lemma_square_18()
    ensures
        generator_squared(18).spec_mul(generator_squared(18)) == generator_squared(19),
        generator_squared(19).wf(),
{
    let a = generator_squared(18);
    let b = generator_squared(19);
    lemma_value_literal(a);
    lemma_value_literal(b);
    let va = a.value();
    let vb = b.value();
    assert(mul_mod(va, va, modulus()) == vb) by (nonlinear_arith)
        requires
            va == 0x2ad9021ed07c42ab19f77c5cf2cbd2deb135ea330f1b1573bd08d99309c4bb7dint,
            vb == 0x0dd30b9ad8c173555d2a33029bc807ac165b61281e9054a173af7ff4e4fc88fcint,
            modulus() == 0x30644e72e131a029b85045b68181585d2833e84879b9709143e1f593f0000001int,
    ;
    lemma_square_step(a, b, va, vb);
}

proof fn lemma_square_19()
    ensures
        generator_squared(19).spec_mul(generator_squared(19)) == generator_squared(20),
        generator_squared(20).wf(),
{
    let a = generator_squared(19);
    let b = generator_squared(20);
    lemma_value_literal(a);
    lemma_value_literal(b);
    let va = a.value();
    let vb = b.value();
    assert(mul_mod(va, va, modulus()) == vb) by (nonlinear_arith)
        requires
            va == 0x0dd30b9ad8c173555d2a33029bc807ac165b61281e9054a173af7ff4e4fc88fcint,
            vb == 0x1058a83d529be585820b96ff0a13f2dbd8675a9e5dd2336a6692cc1e5a526c81int,
            modulus() == 0x30644e72e131a029b85045b68181585d2833e84879b9709143e1f593f0000001int,
    ;
    lemma_square_step(a, b, va, vb);
}

proof fn lemma_square_20()
    ensures
        generator_squared(20).spec_mul(generator_squared(20)) == generator_squared(21),
        generator_squared(21).wf(),
{
    let a = generator_squared(20);
    let b = generator_squared(21);
    lemma_value_literal(a);
    lemma_value_literal(b);
    let va = a.value();
    let vb = b.value();
    assert(mul_mod(va, va, modulus()) == vb) by (nonlinear_arith)
        requires
            va == 0x1058a83d529be585820b96ff0a13f2dbd8675a9e5dd2336a6692cc1e5a526c81int,
            vb == 0x2822ef9d2d155c2b49f7a010aeec0dae3df9cff80535c8d08c9e954b942e6d6bint,
            modulus() == 0x30644e72e131a029b85045b68181585d2833e84879b9709143e1f593f0000001int,
    ;
    lemma_square_step(a, b, va, vb);
}

proof fn lemma_square_21()
    ensures
        generator_squared(21).spec_mul(generator_squared(21)) == generator_squared(22),
        generator_squared(22).wf(),
{
    let a = generator_squared(21);
    let b = generator_squared(22);
    lemma_value_literal(a);
    lemma_value_literal(b);
    let va = a.value();
    let vb = b.value();
    assert(mul_mod(va, va, modulus()) == vb) by (nonlinear_arith)
        requires
            va == 0x2822ef9d2d155c2b49f7a010aeec0dae3df9cff80535c8d08c9e954b942e6d6bint,
            vb == 0x1c4c3a258629905ef6036a4037c3aa6ae18d1d2452d64bd2684cfa8ede70fdc7int,
            modulus() == 0x30644e72e131a029b85045b68181585d2833e84879b9709143e1f593f0000001int,
    ;
    lemma_square_step(a, b, va, vb);
}

proof fn lemma_square_22()
    ensures
        generator_squared(22).spec_mul(generator_squared(22)) == generator_squared(23),
        generator_squared(23).wf(),
{
    let a = generator_squared(22);
    let b = generator_squared(23);
    lemma_value_literal(a);
    lemma_value_literal(b);
    let va = a.value();
    let vb = b.value();
    assert(mul_mod(va, va, modulus()) == vb) by (nonlinear_arith)
        requires
            va == 0x1c4c3a258629905ef6036a4037c3aa6ae18d1d2452d64bd2684cfa8ede70fdc7int,
            vb == 0x09c532c6306b93d29678200d47c0b2a99c18d51b838eeb1d3eed4c533bb512d0int,
            modulus() == 0x30644e72e131a029b85045b68181585d2833e84879b9709143e1f593f0000001int,
    ;
    lemma_square_step(a, b, va, vb);
}

proof fn lemma_square_23()
    ensures
        generator_squared(23).spec_mul(generator_squared(23)) == generator_squared(24),
        generator_squared(24).wf(),
{
    let a = generator_squared(23);
    let b = generator_squared(24);
    lemma_value_literal(a);
    lemma_value_literal(b);
    let va = a.value();
    let vb = b.value();
    assert(mul_mod(va, va, modulus()) == vb) by (nonlinear_arith)
        requires
            va == 0x09c532c6306b93d29678200d47c0b2a99c18d51b838eeb1d3eed4c533bb512d0int,
            vb == 0x21082ca216cbbf4e1c6e4f4594dd508c996dfbe1174efb98b11509c6e306460bint,
            modulus() == 0x30644e72e131a029b85045b68181585d2833e84879b9709143e1f593f0000001int,
    ;
    lemma_square_step(a, b, va, vb);
}

proof fn lemma_square_24()
    ensures
        generator_squared(24).spec_mul(generator_squared(24)) == generator_squared(25),
        generator_squared(25).wf(),
{
    let a = generator_squared(24);
    let b = generator_squared(25);
    lemma_value_literal(a);
    lemma_value_literal(b);
    let va = a.value();
    let vb = b.value();
    assert(mul_mod(va, va, modulus()) == vb) by (nonlinear_arith)
        requires
            va == 0x21082ca216cbbf4e1c6e4f4594dd508c996dfbe1174efb98b11509c6e306460bint,
            vb == 0x2b337de1c8c14f22ec9b9e2f96afef3652627366f8170a0a948dad4ac1bd5e80int,
            modulus() == 0x30644e72e131a029b85045b68181585d2833e84879b9709143e1f593f0000001int,
    ;
    lemma_square_step(a, b, va, vb);
}

proof fn lemma_square_25()
    ensures
        generator_squared(25).spec_mul(generator_squared(25)) == generator_squared(26),
        generator_squared(26).wf(),
{
    let a = generator_squared(25);
    let b = generator_squared(26);
    lemma_value_literal(a);
    lemma_value_literal(b);
    let va = a.value();
    let vb = b.value();
    assert(mul_mod(va, va, modulus()) == vb) by (nonlinear_arith)
        requires
            va == 0x2b337de1c8c14f22ec9b9e2f96afef3652627366f8170a0a948dad4ac1bd5e80int,
            vb == 0x30644e72e131a029048b6e193fd841045cea24f6fd736bec231204708f703636int,
            modulus() == 0x30644e72e131a029b85045b68181585d2833e84879b9709143e1f593f0000001int,
    ;
    lemma_square_step(a, b, va, vb);
}

proof fn lemma_square_26()
    ensures
        generator_squared(26).spec_mul(generator_squared(26)) == generator_squared(27),
        generator_squared(27).wf(),
{
    let a = generator_squared(26);
    let b = generator_squared(27);
    lemma_value_literal(a);
    lemma_value_literal(b);
    let va = a.value();
    let vb = b.value();
    assert(mul_mod(va, va, modulus()) == vb) by (nonlinear_arith)
        requires
            va == 0x30644e72e131a029048b6e193fd841045cea24f6fd736bec231204708f703636int,
            vb == 0x30644e72e131a029b85045b68181585d2833e84879b9709143e1f593f0000000int,
            modulus() == 0x30644e72e131a029b85045b68181585d2833e84879b9709143e1f593f0000001int,
    ;
    lemma_square_step(a, b, va, vb);
}

proof fn lemma_square_27()
    ensures
        generator_squared(27).spec_mul(generator_squared(27)) == generator_squared(28),
        generator_squared(28).wf(),
{
    let a = generator_squared(27);
    let b = generator_squared(28);
    lemma_value_literal(a);
    lemma_value_literal(b);
    let va = a.value();
    let vb = b.value();
    assert(mul_mod(va, va, modulus()) == vb) by (nonlinear_arith)
        requires
            va == 0x30644e72e131a029b85045b68181585d2833e84879b9709143e1f593f0000000int,
            vb == 0x0000000000000000000000000000000000000000000000000000000000000001int,
            modulus() == 0x30644e72e131a029b85045b68181585d2833e84879b9709143e1f593f0000001int,
    ;
    lemma_square_step(a, b, va, vb);
}

/// One more squaring, from any of the first 28 entries of the table.
proof fn lemma_square(i: nat)
    requires
        i < 28,
    ensures
        generator_squared(i).spec_mul(generator_squared(i)) == generator_squared(i + 1),
        generator_squared(i + 1).wf(),
{
    if i == 0 {
        lemma_square_0();
    }     else if i == 1 {
        lemma_square_1();
    }     else if i == 2 {
        lemma_square_2();
    }     else if i == 3 {
        lemma_square_3();
    }     else if i == 4 {
        lemma_square_4();
    }     else if i == 5 {
        lemma_square_5();
    }     else if i == 6 {
        lemma_square_6();
    }     else if i == 7 {
        lemma_square_7();
    }     else if i == 8 {
        lemma_square_8();
    }     else if i == 9 {
        lemma_square_9();
    }     else if i == 10 {
        lemma_square_10();
    }     else if i == 11 {
        lemma_square_11();
    }     else if i == 12 {
        lemma_square_12();
    }     else if i == 13 {
        lemma_square_13();
    }     else if i == 14 {
        lemma_square_14();
    }     else if i == 15 {
        lemma_square_15();
    }     else if i == 16 {
        lemma_square_16();
    }     else if i == 17 {
        lemma_square_17();
    }     else if i == 18 {
        lemma_square_18();
    }     else if i == 19 {
        lemma_square_19();
    }     else if i == 20 {
        lemma_square_20();
    }     else if i == 21 {
        lemma_square_21();
    }     else if i == 22 {
        lemma_square_22();
    }     else if i == 23 {
        lemma_square_23();
    }     else if i == 24 {
        lemma_square_24();
    }     else if i == 25 {
        lemma_square_25();
    }     else if i == 26 {
        lemma_square_26();
    }     else if i == 27 {
        lemma_square_27();
    }
}

/// The table holds the generator squared over and over.
proof fn lemma_table(i: nat)
    requires
        i <= 28,
    ensures
        generator_squared(i) == Fr::spec_two_adic_generator().spec_exp(pow2(i)),
        generator_squared(i).wf(),
    decreases i,
{
    let g = Fr::spec_two_adic_generator();
    lemma_value_literal(g);
    assert(g.wf());
    lemma_squared_times(g, i);
    if i > 0 {
        lemma_table((i - 1) as nat);
        lemma_squared_times(g, (i - 1) as nat);
        lemma_square((i - 1) as nat);
    }
}

/// The generator has order `2^28`: raised to that power it gives one, and
/// raised to half that power it does not.
pub proof fn lemma_generator_order()
    ensures
        Fr::spec_two_adic_generator().wf(),
        Fr::spec_two_adic_generator().spec_exp(pow2(28)) == Fr::spec_one(),
        Fr::spec_two_adic_generator().spec_exp(pow2(27)) != Fr::spec_one(),
{
    lemma_table(28);
    lemma_table(27);
}

} // verus!
