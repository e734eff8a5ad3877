//! A verified Vigenère cipher over the uppercase Latin alphabet.
//!
//! Each letter of the message is rotated by the alphabet position of the
//! corresponding key letter, the key cycling when it is shorter than the
//! message. `cipher::enc` and `cipher::dec` are the two operations; they
//! reject an empty key and any character outside `A`..`Z` with a typed error.

pub mod alphabet;
pub mod cipher;
pub mod rotate;

pub use alphabet::to_alpha_index;
pub use alphabet::to_char;
pub use cipher::dec;
pub use cipher::enc;
pub use cipher::CipherError;
pub use rotate::rotate_index;
pub use rotate::reverse_rotate_index;
