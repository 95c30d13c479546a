//! A lattice public-key encryption scheme in the Learning-With-Errors style,
//! over vectors and matrices of arbitrary-precision integers reduced modulo a
//! chosen modulus, together with a small lattice-point utility.
pub mod algebra;
pub mod bigint;
pub mod error;
pub mod laws;
pub mod lattice_point;
pub mod lattice_space;
pub mod scheme;

pub use algebra::{generate_random_vector, inner_product, matrix_add, matrix_mul, reduce};
pub use error::LatticeError;
pub use lattice_point::{LatticePoint, LatticePointError};
pub use lattice_space::LatticeSpace;
pub use scheme::{
    decrypt, encrypt, encrypt_with, key_gen, key_gen_from, Cipher, LatticeParams, PublicKey,
    SecretKey,
};
