//! Accounts and the keys that stand for them.

use crate::models::hex::{bytes_hex, is_hex_digit, lemma_bytes_hex, to_hex_pairs};
use rand::Rng;
use vstd::prelude::*;

verus! {

/// An account as it is stored.
#[derive(Debug, PartialEq, Eq)]
pub struct Account {
    pub user: String,
    pub password: String,
    pub key: String,
}

/// The credentials a client sends to register or to log in.
#[derive(Debug, PartialEq, Eq)]
pub struct NewAccount {
    pub user: String,
    pub password: String,
}

/// The mathematical content of an [`Account`].
pub struct AccountView {
    pub user: Seq<char>,
    pub password: Seq<char>,
    pub key: Seq<char>,
}

impl View for Account {
    type V = AccountView;

    open spec fn view(&self) -> AccountView {
        AccountView { user: self.user@, password: self.password@, key: self.key@ }
    }
}

/// The mathematical content of a [`NewAccount`].
pub struct NewAccountView {
    pub user: Seq<char>,
    pub password: Seq<char>,
}

impl View for NewAccount {
    type V = NewAccountView;

    open spec fn view(&self) -> NewAccountView {
        NewAccountView { user: self.user@, password: self.password@ }
    }
}

/// The number of random bytes in a key.
pub const KEY_BYTES: usize = 16;

/// Whether `key` has the shape of a generated key: the digits of sixteen
/// bytes.
pub open spec fn is_key(key: Seq<char>) -> bool {
    exists|bytes: Seq<u8>| bytes.len() == KEY_BYTES && key == bytes_hex(bytes)
}

/// `rand::Rng::gen` on `rand::thread_rng()`: one random byte. Nothing is
/// known of it.
#[verifier::external_body]
fn random_byte() -> u8 {
    rand::thread_rng().gen::<u8>()
}

/// Renders the bytes of a key: two lowercase hexadecimal digits for each.
pub fn key_from_bytes(bytes: &Vec<u8>) -> (key: String)
    ensures
        key@ == bytes_hex(bytes@),
        bytes.len() == KEY_BYTES ==> is_key(key@),
{
    to_hex_pairs(bytes)
}

/// Generates a fresh key from sixteen random bytes.
pub fn generate_key() -> (key: String)
    ensures
        is_key(key@),
{
    let mut bytes: Vec<u8> = Vec::new();
    while bytes.len() < KEY_BYTES
        invariant
            bytes.len() <= KEY_BYTES,
        decreases KEY_BYTES - bytes.len(),
    {
        bytes.push(random_byte());
    }
    key_from_bytes(&bytes)
}

/// A key is thirty-two characters long and made of lowercase hexadecimal
/// digits only.
pub proof fn lemma_key_shape(key: Seq<char>)
    requires
        is_key(key),
    ensures
        key.len() == 32,
        forall|i: int| 0 <= i < key.len() ==> is_hex_digit(#[trigger] key[i]),
{
    let bytes = choose|bytes: Seq<u8>| bytes.len() == KEY_BYTES && key == bytes_hex(bytes);
    lemma_bytes_hex(bytes);
}

} // verus!
