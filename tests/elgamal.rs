use elgamal::{
    decrypt, elgamal_key_generate, encrypt, find_generator, key_generation, maximum_tries,
    modulus_candidate, non_malleable_decrypt, non_malleable_decrypt_input, non_malleable_encrypt,
    non_malleable_encrypt_input, private_key_from_fields, public_key_from_fields, reencrypt, sign,
    verify, verify_algorithm_id, ElgamalGroup, ElgamalGroupElements, ElgamalPrivateKey,
    ElgamalPublicKey, Error, GenerationStep, Natural, ParameterSearch,
};
use num_bigint_dig::{BigUint, RandBigInt, RandPrime};
use rand::rngs::StdRng;
use rand::SeedableRng;
use sha2::{Digest, Sha256};

fn big(n: &Natural) -> BigUint {
    BigUint::from_bytes_be(&n.to_bytes_be())
}

fn natural_of(n: &BigUint) -> Natural {
    Natural::from_bytes_be(&n.to_bytes_be())
}

fn n(v: u64) -> Natural {
    Natural::from_u64(v)
}

fn random_below(rng: &mut StdRng, lo: &Natural, hi: &Natural) -> Natural {
    natural_of(&rng.gen_biguint_range(&big(lo), &big(hi)))
}

fn generate_group(rng: &mut StdRng, l: usize, k: usize) -> ElgamalGroup {
    let mut search = ParameterSearch::new(l, k);
    let mut step = search.first_step();
    loop {
        step = match step {
            GenerationStep::DrawPrime(bits) => search.prime_drawn(natural_of(&rng.gen_prime(bits))),
            GenerationStep::DrawCandidate(bits) => {
                search.candidate_drawn(natural_of(&rng.gen_biguint(bits)))
            }
            GenerationStep::Done(group) => return group,
            GenerationStep::Failed(e) => panic!("generation failed: {}", e.message()),
        }
    }
}

fn generate_key(rng: &mut StdRng, l: usize, k: usize) -> (ElgamalPublicKey, ElgamalPrivateKey) {
    let group = generate_group(rng, l, k);
    let x = random_below(rng, &n(1), group.get_q());
    let (y, x) = key_generation(&group, x);
    let pubkey = ElgamalPublicKey::new(group.clone(), y);
    let privatekey = ElgamalPrivateKey::new(group, x, None);
    (pubkey, privatekey)
}

fn toy_keys() -> (ElgamalPublicKey, ElgamalPrivateKey) {
    let group = ElgamalGroup::new(n(23), n(11), n(2));
    elgamal_key_generate(&group, n(3))
}

fn sha256(data: &[u8]) -> Vec<u8> {
    let mut digest = Sha256::new();
    digest.update(data);
    digest.finalize().to_vec()
}

fn modpow(b: &Natural, e: &Natural, m: &Natural) -> BigUint {
    big(b).modpow(&big(e), &big(m))
}

#[test]
fn elgamal_gen_1() {
    let mut rng = StdRng::from_entropy();
    let group = generate_group(&mut rng, 5, 3);
    let (p, q, g) = (big(group.get_p()), big(group.get_q()), big(group.get_g()));
    assert_eq!(p.bits(), 5);
    assert_eq!(q.bits(), 3);
    assert_eq!((&p - 1u32) % (&q * 2u32), BigUint::from(0u32));
    assert_eq!(g.modpow(&q, &p), BigUint::from(1u32));
    assert!(g != BigUint::from(1u32) && g != &p - 1u32);
}

#[test]
fn encrypt_decrypt() {
    let l = 70;
    let k = 4;
    let mut rng = StdRng::from_entropy();

    let (pub_key, priv_key) = generate_key(&mut rng, l, k);
    let plain_text = random_below(&mut rng, &n(1), pub_key.get_p());
    let r = random_below(&mut rng, &n(1), pub_key.get_q());

    let (a, b) = encrypt(&pub_key, &plain_text, &r).unwrap();
    let decrypted = decrypt(&priv_key, &a, &b).unwrap();

    assert_eq!(decrypted, plain_text);
}

#[test]
fn non_malleable_encrypt_decrypt() {
    let l = 70;
    let k = 4;
    let mut rng = StdRng::from_entropy();

    let (pub_key, priv_key) = generate_key(&mut rng, l, k);
    let plain_text = random_below(&mut rng, &n(1), pub_key.get_p());
    let r = random_below(&mut rng, &n(1), pub_key.get_q());
    let s = random_below(&mut rng, &n(1), pub_key.get_q());

    let hashed = sha256(&non_malleable_encrypt_input(&pub_key, &plain_text, &r, &s));
    let (a, b, c, d) = non_malleable_encrypt(&pub_key, &plain_text, &r, &s, &hashed);

    let input = non_malleable_decrypt_input(&priv_key, &a, &b, &c, &d).unwrap();
    let decrypted = non_malleable_decrypt(&priv_key, &a, &b, &c, &sha256(&input)).unwrap();

    assert_eq!(decrypted, plain_text);
}

#[test]
fn sign_verify() {
    let l = 70;
    let k = 4;
    let mut rng = StdRng::from_entropy();

    let (pub_key, priv_key) = generate_key(&mut rng, l, k);
    let plain_text = random_below(&mut rng, &n(1), pub_key.get_p());
    let k = random_below(&mut rng, &n(1), pub_key.get_q());
    let (r, s) = sign(&priv_key, &plain_text, &k).unwrap();

    verify(&pub_key, &plain_text, &r, &s).unwrap();
}

#[test]
fn toy_group_encrypt_scenario() {
    let (pub_key, priv_key) = toy_keys();
    assert_eq!(*pub_key.get_y(), n(8));
    let (a, b) = encrypt(&pub_key, &n(5), &n(4)).unwrap();
    assert_eq!(a, n(16));
    assert_eq!(b, n(10));
    assert_eq!(decrypt(&priv_key, &a, &b).unwrap(), n(5));
}

#[test]
fn toy_group_reencrypt_scenario() {
    let (pub_key, priv_key) = toy_keys();
    let (a2, b2) = reencrypt(&pub_key, &n(16), &n(10), &n(5));
    assert_eq!(a2, n(6));
    assert_eq!(b2, n(22));
    assert_eq!(decrypt(&priv_key, &a2, &b2).unwrap(), n(5));
}

#[test]
fn reencrypt_keeps_plaintext_and_changes_ciphertext() {
    let mut rng = StdRng::from_entropy();
    let (pub_key, priv_key) = generate_key(&mut rng, 70, 40);
    let m = random_below(&mut rng, &n(1), pub_key.get_p());
    let r = random_below(&mut rng, &n(1), pub_key.get_q());
    let (a, b) = encrypt(&pub_key, &m, &r).unwrap();
    for _ in 0..5 {
        let r2 = random_below(&mut rng, &n(1), pub_key.get_q());
        let (a2, b2) = reencrypt(&pub_key, &a, &b, &r2);
        assert!(a2 != a || b2 != b);
        assert_eq!(decrypt(&priv_key, &a2, &b2).unwrap(), m);
    }
}

#[test]
fn encrypt_random_round_trip_many() {
    let mut rng = StdRng::from_entropy();
    let (pub_key, priv_key) = generate_key(&mut rng, 64, 20);
    for _ in 0..10 {
        let m = random_below(&mut rng, &n(0), pub_key.get_p());
        let r = random_below(&mut rng, &n(1), pub_key.get_q());
        let (a, b) = encrypt(&pub_key, &m, &r).unwrap();
        assert_eq!(decrypt(&priv_key, &a, &b).unwrap(), m);
    }
}

#[test]
fn toy_group_sign_both_branches() {
    let (pub_key, priv_key) = toy_keys();
    let (r, s) = sign(&priv_key, &n(7), &n(3)).unwrap();
    assert_eq!((r.clone(), s.clone()), (n(8), n(9)));
    assert_eq!(verify(&pub_key, &n(7), &r, &s), Ok(()));

    let (r, s) = sign(&priv_key, &n(1), &n(3)).unwrap();
    assert_eq!((r.clone(), s.clone()), (n(8), n(7)));
    assert_eq!(verify(&pub_key, &n(1), &r, &s), Ok(()));
}

#[test]
fn signature_tampering_is_rejected() {
    let (pub_key, _) = toy_keys();
    assert_eq!(verify(&pub_key, &n(7), &n(8), &n(8)), Err(Error::Verification));
    assert_eq!(verify(&pub_key, &n(7), &n(9), &n(9)), Err(Error::Verification));
    assert_eq!(verify(&pub_key, &n(8), &n(8), &n(9)), Err(Error::Verification));
}

#[test]
fn signature_bit_flips_are_rejected() {
    let mut rng = StdRng::from_entropy();
    let (pub_key, priv_key) = generate_key(&mut rng, 70, 40);
    let h = random_below(&mut rng, &n(1), pub_key.get_p());
    let k = random_below(&mut rng, &n(1), pub_key.get_q());
    let (r, s) = sign(&priv_key, &h, &k).unwrap();
    assert_eq!(verify(&pub_key, &h, &r, &s), Ok(()));
    let flipped_s = natural_of(&(big(&s) ^ BigUint::from(1u32)));
    assert_eq!(verify(&pub_key, &h, &r, &flipped_s), Err(Error::Verification));
    let flipped_r = natural_of(&(big(&r) ^ BigUint::from(2u32)));
    assert_eq!(verify(&pub_key, &h, &flipped_r, &s), Err(Error::Verification));
    let other_h = natural_of(&(big(&h) + 1u32));
    assert_eq!(verify(&pub_key, &other_h, &r, &s), Err(Error::Verification));
}

#[test]
fn verify_range_rejection() {
    let (pub_key, _) = toy_keys();
    assert_eq!(verify(&pub_key, &n(7), &n(8), &n(12)), Err(Error::InvalidRange));
    assert_eq!(verify(&pub_key, &n(7), &n(24), &n(9)), Err(Error::InvalidRange));
    assert_eq!(verify(&pub_key, &n(0), &n(1000), &n(1000)), Err(Error::InvalidRange));
}

#[test]
fn sign_without_inverse() {
    let (_, priv_key) = toy_keys();
    assert_eq!(sign(&priv_key, &n(7), &n(11)).unwrap_err(), Error::InvalidInverse);
}

#[test]
fn decrypt_without_inverse() {
    let group = ElgamalGroup::new(n(24), n(11), n(5));
    let (_, priv_key) = elgamal_key_generate(&group, n(1));
    assert_eq!(decrypt(&priv_key, &n(2), &n(3)).unwrap_err(), Error::InvalidPrivateKey);
}

#[test]
fn byte_encrypt_decrypt_toy() {
    let (pub_key, priv_key) = toy_keys();
    let cipher = pub_key.encrypt(&[5], &n(4)).unwrap();
    assert_eq!(cipher, vec![16, 10]);
    assert_eq!(priv_key.decrypt(&cipher).unwrap(), vec![5]);
}

#[test]
fn byte_encrypt_pads_components() {
    let mut rng = StdRng::from_entropy();
    let (pub_key, priv_key) = generate_key(&mut rng, 70, 20);
    let width = pub_key.get_p().to_bytes_be().len();
    for _ in 0..10 {
        let m = random_below(&mut rng, &n(1), pub_key.get_p());
        let r = random_below(&mut rng, &n(1), pub_key.get_q());
        let cipher = pub_key.encrypt(&m.to_bytes_be(), &r).unwrap();
        assert_eq!(cipher.len(), 2 * width);
        assert_eq!(priv_key.decrypt(&cipher).unwrap(), m.to_bytes_be());
    }
}

#[test]
fn byte_sign_verify_round_trip() {
    let mut rng = StdRng::from_entropy();
    let (pub_key, priv_key) = generate_key(&mut rng, 70, 20);
    let hashed = [0x12u8, 0x34, 0x56, 0x78];
    let k = random_below(&mut rng, &n(1), pub_key.get_q());
    let sig = priv_key.sign(&hashed, &k).unwrap();
    assert_eq!(sig.len(), 2 * pub_key.get_p().to_bytes_be().len());
    assert_eq!(pub_key.verify(&hashed, &sig), Ok(()));
}

#[test]
fn odd_length_buffers_are_rejected() {
    let (pub_key, priv_key) = toy_keys();
    assert_eq!(priv_key.decrypt(&[1, 2, 3]).unwrap_err(), Error::InvalidData);
    assert_eq!(pub_key.verify(&[7], &[8, 9, 1]), Err(Error::InvalidData));
}

#[test]
fn long_messages_are_rejected() {
    let (pub_key, priv_key) = toy_keys();
    assert_eq!(encrypt(&pub_key, &n(32), &n(4)).unwrap_err(), Error::MessageTooLong);
    assert_eq!(encrypt(&pub_key, &n(31), &n(4)).unwrap(), (n(16), n(16)));
    assert_eq!(pub_key.encrypt(&[0xFF], &n(4)).unwrap_err(), Error::MessageTooLong);
    assert_eq!(priv_key.sign(&[0x40], &n(3)).unwrap_err(), Error::MessageTooLong);
    assert!(pub_key.encrypt(&[0x1F], &n(4)).is_ok());
}

#[test]
fn toy_group_non_malleable_scenario() {
    let (pub_key, priv_key) = toy_keys();
    let input = non_malleable_encrypt_input(&pub_key, &n(5), &n(4), &n(2));
    assert_eq!(input, vec![4, 16, 10]);
    let (a, b, c, d) = non_malleable_encrypt(&pub_key, &n(5), &n(4), &n(2), &[7]);
    assert_eq!((a.clone(), b.clone(), c.clone(), d.clone()), (n(16), n(10), n(7), n(8)));
    let check = non_malleable_decrypt_input(&priv_key, &a, &b, &c, &d).unwrap();
    assert_eq!(check, vec![4, 16, 10]);
    assert_eq!(non_malleable_decrypt(&priv_key, &a, &b, &c, &[7]).unwrap(), n(5));
    assert_eq!(non_malleable_decrypt(&priv_key, &a, &b, &c, &[8]).unwrap_err(), Error::Verification);
}

#[test]
fn non_malleable_tampering_is_rejected() {
    let mut rng = StdRng::from_entropy();
    let (pub_key, priv_key) = generate_key(&mut rng, 70, 40);
    let m = random_below(&mut rng, &n(1), pub_key.get_p());
    let r = random_below(&mut rng, &n(1), pub_key.get_q());
    let s = random_below(&mut rng, &n(1), pub_key.get_q());
    let hashed = sha256(&non_malleable_encrypt_input(&pub_key, &m, &r, &s));
    let (a, b, c, d) = non_malleable_encrypt(&pub_key, &m, &r, &s, &hashed);
    let one = BigUint::from(1u32);
    let bump = |v: &Natural| natural_of(&(big(v) ^ &one));
    let tampered = [
        (bump(&a), b.clone(), c.clone(), d.clone()),
        (a.clone(), bump(&b), c.clone(), d.clone()),
        (a.clone(), b.clone(), bump(&c), d.clone()),
        (a.clone(), b.clone(), c.clone(), bump(&d)),
    ];
    for (a2, b2, c2, d2) in tampered.iter() {
        let input = non_malleable_decrypt_input(&priv_key, a2, b2, c2, d2).unwrap();
        let result = non_malleable_decrypt(&priv_key, a2, b2, c2, &sha256(&input));
        assert_eq!(result.unwrap_err(), Error::Verification);
    }
}

#[test]
fn key_generation_toy() {
    let group = ElgamalGroup::new(n(23), n(11), n(2));
    let (y, x) = key_generation(&group, n(3));
    assert_eq!((y, x), (n(8), n(3)));
    let (pub_key, priv_key) = elgamal_key_generate(&group, n(5));
    assert_eq!(*pub_key.get_y(), n(9));
    assert_eq!(*priv_key.get_x(), n(5));
    assert!(priv_key.public().is_none());
    assert_eq!(*priv_key.get_p(), n(23));
}

#[test]
fn retry_bounds() {
    assert_eq!(maximum_tries(0), 4);
    assert_eq!(maximum_tries(1), 4);
    assert_eq!(maximum_tries(5), 32);
    assert_eq!(maximum_tries(70), 512);
    assert_eq!(maximum_tries(1024), 4096);
    assert_eq!(maximum_tries(usize::MAX), usize::MAX);
}

#[test]
fn modulus_and_generator_search() {
    assert!(modulus_candidate(&n(29), &n(5), 5).is_none());
    assert_eq!(modulus_candidate(&n(30), &n(5), 5).unwrap(), n(31));
    assert_eq!(modulus_candidate(&n(39), &n(5), 5).unwrap(), n(31));
    assert!(modulus_candidate(&n(40), &n(5), 5).is_none());
    assert_eq!(find_generator(&n(31), &n(5)).unwrap(), n(2));
    assert_eq!(find_generator(&n(23), &n(11)).unwrap(), n(4));
    assert!(find_generator(&n(3), &n(1)).is_none());
}

#[test]
fn search_gives_up_on_bad_primes() {
    let mut search = ParameterSearch::new(5, 3);
    let mut failed = false;
    for _ in 0..100 {
        match search.prime_drawn(n(4)) {
            GenerationStep::DrawPrime(bits) => assert_eq!(bits, 3),
            GenerationStep::Failed(e) => {
                assert_eq!(e, Error::GenerationFailed);
                failed = true;
                break;
            }
            _ => panic!("unexpected step"),
        }
    }
    assert!(failed);
}

#[test]
fn search_steps_on_fixed_draws() {
    let mut search = ParameterSearch::new(5, 3);
    assert!(matches!(search.first_step(), GenerationStep::DrawPrime(3)));
    assert!(matches!(search.prime_drawn(n(5)), GenerationStep::DrawCandidate(5)));
    assert!(matches!(search.candidate_drawn(n(29)), GenerationStep::DrawCandidate(5)));
    match search.candidate_drawn(n(30)) {
        GenerationStep::Done(group) => {
            assert_eq!(*group.get_p(), n(31));
            assert_eq!(*group.get_q(), n(5));
            assert_eq!(*group.get_g(), n(2));
        }
        _ => panic!("expected a group"),
    }
}

#[test]
fn algorithm_identifiers() {
    assert!(verify_algorithm_id(&[0x2B, 0x0E, 0x07, 0x02, 0x01, 0x01]));
    assert!(verify_algorithm_id(&[0x2A, 0x86, 0x48, 0xCE, 0x38, 0x04, 0x01]));
    assert!(!verify_algorithm_id(&[0x2A, 0x86, 0x48, 0x86, 0xF7, 0x0D, 0x01, 0x01, 0x01]));
    assert!(!verify_algorithm_id(&[]));
}

#[test]
fn key_fields() {
    let oid = [0x2Bu8, 0x0E, 0x07, 0x02, 0x01, 0x01];
    let key = public_key_from_fields(&oid, &[23], None, &[2], &[8]).unwrap();
    assert_eq!(*key.get_q(), n(11));
    assert_eq!(*key.get_y(), n(8));
    let key = public_key_from_fields(&oid, &[23], Some(&[11u8][..]), &[2], &[8]).unwrap();
    assert_eq!(*key.get_q(), n(11));
    assert_eq!(public_key_from_fields(&[1, 2], &[23], None, &[2], &[8]).unwrap_err(), Error::InvalidOID);

    let key = private_key_from_fields(0, &oid, &[23], None, &[2], &[3]).unwrap();
    assert_eq!(*key.get_x(), n(3));
    assert_eq!(*key.get_q(), n(11));
    assert_eq!(private_key_from_fields(1, &oid, &[23], None, &[2], &[3]).unwrap_err(), Error::PrivateKeyMalformed);
    assert_eq!(private_key_from_fields(1, &[9], &[23], None, &[2], &[3]).unwrap_err(), Error::InvalidOID);
}

#[test]
fn natural_conversions() {
    assert_eq!(n(0).to_bytes_be(), vec![0]);
    assert_eq!(n(1125).to_bytes_be(), vec![4, 101]);
    assert_eq!(Natural::from_bytes_be(&[0, 0, 4, 101]), n(1125));
    assert_eq!(Natural::from_bytes_be(&[]), n(0));
    assert_eq!(n(1125).bits(), 11);
    assert_eq!(modpow(&n(2), &n(11), &n(23)), BigUint::from(1u32));
}

#[test]
fn error_messages() {
    assert_eq!(Error::InvalidPrivateKey.message(), "invalid PrivateKey");
    assert_eq!(Error::Verification.message(), "verification error");
    assert_eq!(Error::InvalidRange.message(), "integer not in range");
    assert_eq!(Error::GenerationFailed.message(), "parameter generation failed");
}


#[test]
fn search_gives_up_an_order_after_its_tries() {
    let mut search = ParameterSearch::new(5, 3);
    assert!(matches!(search.prime_drawn(n(5)), GenerationStep::DrawCandidate(5)));
    let mut candidates = 0;
    loop {
        match search.candidate_drawn(n(29)) {
            GenerationStep::DrawCandidate(bits) => {
                assert_eq!(bits, 5);
                candidates += 1;
            }
            GenerationStep::DrawPrime(bits) => {
                assert_eq!(bits, 3);
                break;
            }
            _ => panic!("unexpected step"),
        }
    }
    assert_eq!(candidates, maximum_tries(5) + 1);
    assert!(matches!(search.candidate_drawn(n(30)), GenerationStep::DrawPrime(3)));
}

#[test]
fn inverse_error_message() {
    assert_eq!(Error::InvalidInverse.message(), "failed ot find inverse");
}
