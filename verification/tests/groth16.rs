use shielded_pool::groth16::{
    alt_bn128_g1_multiexp, alt_bn128_g1_neg, alt_bn128_g1_sum, alt_bn128_groth16verify,
    alt_bn128_pairing_check, Proof, G1, G2, VK,
};
use shielded_pool::uint::U256;

fn u256(l0: u64, l1: u64, l2: u64, l3: u64) -> U256 {
    U256 { l0, l1, l2, l3 }
}

fn sample_vk() -> VK {
    VK {
        alpha: [u256(0x95f8442b2044eec8, 0xd188ac9158b44d63, 0x6cd9136de2a0c18f, 0x109fc3a44c82a7ae), u256(0xad709d077c3052fc, 0x24a58bec5ab1105b, 0x02dcec672894bdd1, 0x11279c772e615f54)],
        beta: [
        u256(0x7bf479acf07bf33f, 0x81566640e7a7b3e1, 0xd8436424e2f03c31, 0x1bfc7727d222a387),
        u256(0x540772cb1afb01b4, 0x8040103891db8f35, 0x0717c1dc3f129e4d, 0x0299f5c3e0de8626),
        u256(0x05eba5e44277882c, 0x4e5f8b50c4954c91, 0xe06beb77274794e6, 0x2fd5f1e41fc9ad8d),
        u256(0xf11f6a38714f4353, 0xc47c031d6c48841a, 0x67ae2c34b903d882, 0x0b472844c0006232),
    ],
        gamma: [
        u256(0xae4f4ed2bbb3266e, 0x203d631c3b275d44, 0xe31f4d480a5e50a9, 0x29273f97c48d458a),
        u256(0xca7f134ca6282afa, 0x4c49802830560d3e, 0x446b4ce9a195b974, 0x15249ce5197f7a80),
        u256(0xca6689e28adca3ce, 0xe1fb9dcaa1e47942, 0x14ab1d4e20ce626a, 0x26100229669fdc3b),
        u256(0x317d20cbe6f7c79c, 0x3c50e4658bec2052, 0xbc2abd0c24ccd29f, 0x1be77c0192c054a7),
    ],
        delta: [
        u256(0xc0ab49d11d5cd5fe, 0xe2f77aa1553df295, 0xc1efb0a077c448b3, 0x271d2eed01cc2012),
        u256(0xca1a05c4589d4003, 0x348948300380f319, 0x9cb566638cc45411, 0x2b9c787bbebeffc3),
        u256(0x7c5043836ed58b39, 0xbdf7842ab5eb373c, 0x01e5759bafb72434, 0x22bbde161cff65c3),
        u256(0xd1c9c676401f9bdc, 0xa701727861183506, 0x46f50bd71a641f4b, 0x2cbe9fb495c5a838),
    ],
        ic: vec![[u256(0x66c2dc2845d50759, 0x2dfa4d4c9f31cf08, 0x9ef61469ce5cbd20, 0x08c3cf74aeeedf0b), u256(0x7f03041ea3b10602, 0xad24cb60f8881502, 0xf4703b54e2373fc4, 0x04957ca2e9bf96f5)],
            [u256(0xf091f0ad6b54a442, 0xb05f3ac5868b0a76, 0x973183776f65e5c3, 0x09498c6a96b89097), u256(0x334f031c489062c0, 0xcac4783ad00e7ff4, 0x373212a87e81022a, 0x1226c97d660963fc)],
            [u256(0xf648b1309611ec46, 0x3daa7ffa69f2ea07, 0xebe97dff01cdcffd, 0x18c2a570e7f8b365), u256(0x590b06d6aca92c2d, 0x446a8844e5f83bf2, 0xb3324601a9f67158, 0x0774dbfe166fd7fd)],
            [u256(0xebffb4a9c2983eb2, 0x486d765264dbc43a, 0xe5dc66ac0b1ed7fa, 0x1757dee1177c1309), u256(0xa124ee357a11f59c, 0xff775c058758b75c, 0xad62d47aac2ccfd8, 0x21e002cde53d514c)]],
    }
}
fn sample_proof() -> Proof {
    Proof {
        a: [u256(0xf98e74c7835aec41, 0x0611c7c2726621b5, 0x6fe81ae54b48ddeb, 0x2e85efde8f500e56), u256(0xff23b8e934ab1555, 0x99f527b29fb9e225, 0x76e41eaf62032658, 0x192f7068683a214f)],
        b: [
        u256(0x674bc9651a3c03c9, 0x4de41f8e507736f3, 0xcd24107a656c2e6e, 0x1921fd7c5adcb752),
        u256(0xc3dcd3b238fc8b5f, 0xbb372ebd436815ff, 0xd5d8b20297bd0b6b, 0x20898b6b22abb68d),
        u256(0xee06d898d46e2134, 0x29edc444d2f731ef, 0x1388cf9d180041a7, 0x050f1587cf9fc9b3),
        u256(0x743c37701883ce7b, 0xcc6392e6a773369f, 0x517a1959456cb1a1, 0x12e5897fa24be66c),
    ],
        c: [u256(0xce82bd0a8f53aed6, 0x4696d543be7e712a, 0x1dfef918ba55d89b, 0x1e748abcca90c9ea), u256(0x3e8635fe3c918b47, 0x9582374352b4fd80, 0x587dbba8ac12719e, 0x139046c1ed0de8c7)],
    }
}
fn sample_input() -> Vec<U256> {
    vec![u256(0xca39f414de0835c2, 0x5b0acb0ac4287b5b, 0x72a2c1fcdad4ae33, 0x0df4af626a55104b),
        u256(0x68c274dedc69f85b, 0xbbfa63bc0725d4eb, 0xed10a1bbd2ada7a5, 0x2a57943972237848),
        u256(0x561ca8d3400b35fc, 0xa56799dda3dc664f, 0x3aa50b07f471407b, 0x257f2c14f616c522)]
}

#[test]
fn test_verifier() {
    assert!(alt_bn128_groth16verify(&sample_vk(), &sample_proof(), &sample_input()));
}

#[test]
fn test_verifier_false() {
    let mut input = sample_input();
    input[0].l0 -= 1;
    assert!(!alt_bn128_groth16verify(&sample_vk(), &sample_proof(), &input));
}

#[test]
fn groth16_key_has_one_point_more_than_inputs() {
    // The verifier is asked only with a key of that length; the known
    // vector is one, and one input changed at any place fails it.
    assert_eq!(sample_vk().ic.len(), sample_input().len() + 1);
    for k in 0..sample_input().len() {
        let mut input = sample_input();
        input[k].l1 ^= 1;
        assert!(!alt_bn128_groth16verify(&sample_vk(), &sample_proof(), &input));
    }
}

#[test]
fn groth16_rejects_point_off_curve() {
    let mut proof = sample_proof();
    proof.a[1].l0 ^= 1;
    assert!(!alt_bn128_groth16verify(&sample_vk(), &proof, &sample_input()));
    let mut proof = sample_proof();
    proof.b[0].l0 ^= 1;
    assert!(!alt_bn128_groth16verify(&sample_vk(), &proof, &sample_input()));
}

#[test]
fn groth16_rejects_swapped_g2_coefficients() {
    let mut proof = sample_proof();
    proof.b = [proof.b[1], proof.b[0], proof.b[3], proof.b[2]];
    assert!(!alt_bn128_groth16verify(&sample_vk(), &proof, &sample_input()));
}

#[test]
fn g1_neg_keeps_x_and_mirrors_y() {
    // The generator (1, 2); the base field has order q, so -2 is q - 2.
    let g: G1 = [u256(1, 0, 0, 0), u256(2, 0, 0, 0)];
    let n = alt_bn128_g1_neg(g).unwrap();
    assert_eq!(n[0], u256(1, 0, 0, 0));
    assert_eq!(
        n[1],
        u256(0x3c208c16d87cfd45, 0x97816a916871ca8d, 0xb85045b68181585d, 0x30644e72e131a029)
    );
    assert_eq!(alt_bn128_g1_neg(n).unwrap(), g);
}

#[test]
fn g1_neg_rejects_point_off_curve() {
    assert!(alt_bn128_g1_neg([u256(1, 0, 0, 0), u256(3, 0, 0, 0)]).is_none());
    assert!(alt_bn128_g1_neg([u256(0, 0, 0, 0), u256(0, 0, 0, 0)]).is_none());
    // A coordinate that is not reduced.
    let q = u256(0x3c208c16d87cfd47, 0x97816a916871ca8d, 0xb85045b68181585d, 0x30644e72e131a029);
    assert!(alt_bn128_g1_neg([u256(1, 0, 0, 0), q]).is_none());
}

#[test]
fn g1_multiexp_of_generator() {
    let g: G1 = [u256(1, 0, 0, 0), u256(2, 0, 0, 0)];
    // 1 * G = G
    assert_eq!(alt_bn128_g1_multiexp(&[(g, u256(1, 0, 0, 0))]).unwrap(), g);
    // 2 * G = G + G, the doubling of (1, 2)
    let twice = alt_bn128_g1_multiexp(&[(g, u256(2, 0, 0, 0))]).unwrap();
    let sum = alt_bn128_g1_multiexp(&[(g, u256(1, 0, 0, 0)), (g, u256(1, 0, 0, 0))]).unwrap();
    assert_eq!(twice, sum);
    assert_eq!(
        twice[0],
        u256(0xd3c208c16d87cfd3, 0xd97816a916871ca8, 0x9b85045b68181585, 0x030644e72e131a02)
    );
    assert_eq!(
        twice[1],
        u256(0xff3ebf7a5a18a2c4, 0x68a6a449e3538fc7, 0xe7845f96b2ae9c0a, 0x15ed738c0e0a7c92)
    );
}

#[test]
fn g1_multiexp_fails_on_infinity_and_bad_items() {
    let g: G1 = [u256(1, 0, 0, 0), u256(2, 0, 0, 0)];
    let n = alt_bn128_g1_neg(g).unwrap();
    // G - G is the point at infinity, which has no coordinates.
    assert!(alt_bn128_g1_multiexp(&[(g, u256(1, 0, 0, 0)), (n, u256(1, 0, 0, 0))]).is_none());
    assert!(alt_bn128_g1_multiexp(&[]).is_none());
    // A scalar that is not below the order of the group.
    let r = u256(0x43e1f593f0000001, 0x2833e84879b97091, 0xb85045b68181585d, 0x30644e72e131a029);
    assert!(alt_bn128_g1_multiexp(&[(g, r)]).is_none());
    assert!(alt_bn128_g1_multiexp(&[([u256(1, 0, 0, 0), u256(3, 0, 0, 0)], u256(1, 0, 0, 0))]).is_none());
}

#[test]
fn pairing_check_of_inverse_pairs() {
    let vk = sample_vk();
    let g: G1 = [u256(1, 0, 0, 0), u256(2, 0, 0, 0)];
    let n = alt_bn128_g1_neg(g).unwrap();
    let q: G2 = vk.beta;
    // e(G, Q) * e(-G, Q) = 1
    assert_eq!(alt_bn128_pairing_check(&[(g, q), (n, q)]), Some(true));
    // e(G, Q) * e(G, Q) != 1
    assert_eq!(alt_bn128_pairing_check(&[(g, q), (g, q)]), Some(false));
    // The empty product is one.
    assert_eq!(alt_bn128_pairing_check(&[]), Some(true));
    // A point that is not on the curve.
    assert_eq!(alt_bn128_pairing_check(&[([u256(1, 0, 0, 0), u256(3, 0, 0, 0)], q)]), None);
}

#[test]
fn g1_sum_adds_and_subtracts() {
    let g: G1 = [u256(1, 0, 0, 0), u256(2, 0, 0, 0)];
    let n = alt_bn128_g1_neg(g).unwrap();
    let twice = alt_bn128_g1_multiexp(&[(g, u256(2, 0, 0, 0))]).unwrap();
    assert_eq!(alt_bn128_g1_sum(&[(false, g)]), Some(g));
    // The inverse of a point is the sum of the point, subtracted.
    assert_eq!(alt_bn128_g1_sum(&[(true, g)]), Some(n));
    assert_eq!(alt_bn128_g1_sum(&[(false, g), (false, g)]), Some(twice));
    assert_eq!(alt_bn128_g1_sum(&[(false, twice), (true, g)]), Some(g));
    assert_eq!(alt_bn128_g1_sum(&[(true, n), (true, n)]), Some(twice));
    // A sum that is the point at infinity has no coordinates.
    assert_eq!(alt_bn128_g1_sum(&[(false, g), (true, g)]), None);
    assert_eq!(alt_bn128_g1_sum(&[]), None);
    assert_eq!(alt_bn128_g1_sum(&[(false, [u256(1, 0, 0, 0), u256(3, 0, 0, 0)])]), None);
}
