//! ElGamal encryption, re-encryption, signatures and non-malleable encryption
//! over a prime-order subgroup modulo a large prime.

mod algorithms;
mod arith;
mod codec;
mod error;
mod formats;
mod internal;
mod keys;
mod laws;
mod natural;

pub use error::Error;
pub use keys::{ElgamalGroup, ElgamalGroupElements, ElgamalPrivateKey, ElgamalPublicKey};
pub use natural::Natural;
pub use internal::{
    decrypt, encrypt, non_malleable_decrypt, non_malleable_decrypt_input, non_malleable_encrypt,
    non_malleable_encrypt_input, reencrypt, sign, verify,
};
pub use algorithms::{
    elgamal_key_generate, find_generator, key_generation, maximum_tries, modulus_candidate,
    GenerationStep, ParameterSearch,
};
pub use formats::{private_key_from_fields, public_key_from_fields, verify_algorithm_id};
pub use keys::{key_pair, valid_group, GroupModel};
pub use natural::{be_value, bit_len, invertible, is_inverse, minimal_be, mod_inv, pow_mod, probable_prime};
pub use internal::{
    challenge_input, decrypt_spec, encrypt_spec, nm_decrypt_input_spec, nm_decrypt_spec,
    nm_encrypt_input_spec, nm_encrypt_spec, reencrypt_spec, sign_spec, verify_spec,
};
pub use codec::{component_width, decode_pair, encode_pair};
pub use algorithms::{acceptable_generator, generator_candidate, modulus_from, search_generator};
pub use laws::{
    lemma_bit_len_mono, lemma_bytes_round_trip, lemma_decrypt_power, lemma_encrypt_decrypt,
    lemma_factor_invertible, lemma_non_malleable_round_trip, lemma_product_invertible,
    lemma_reencrypt_decrypt, lemma_reencrypt_keeps_decryption, lemma_sign_verify,
};
