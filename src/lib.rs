pub mod bignum;
pub mod config;
pub mod key_gen;
pub mod math;
pub mod primality;
pub mod sigma;
pub mod transcript;
