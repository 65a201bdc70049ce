//! Audiobooks and the identifier their catalog entries are stored under.

use crate::models::hex::{is_hex_digit, lemma_lower_hex, lower_hex, to_lower_hex};
use vstd::prelude::*;
use vstd::utf8::encode_utf8;

verus! {

/// An audiobook found on disk: what its metadata says and where it lies.
#[derive(Debug, PartialEq, Eq)]
pub struct Audiobook {
    pub title: String,
    pub author: String,
    pub path: String,
}

/// An audiobook as the catalog lists it: without its path.
#[derive(Debug, PartialEq, Eq)]
pub struct AudiobookFmt {
    pub hash: String,
    pub title: String,
    pub author: String,
}

/// The listing of the whole catalog.
#[derive(Debug, PartialEq, Eq)]
pub struct Audiobooks {
    pub audiobooks: Vec<AudiobookFmt>,
}

/// The mathematical content of an [`Audiobook`].
pub struct AudiobookView {
    pub title: Seq<char>,
    pub author: Seq<char>,
    pub path: Seq<char>,
}

impl View for Audiobook {
    type V = AudiobookView;

    open spec fn view(&self) -> AudiobookView {
        AudiobookView { title: self.title@, author: self.author@, path: self.path@ }
    }
}

/// The mathematical content of an [`AudiobookFmt`].
pub struct AudiobookFmtView {
    pub hash: Seq<char>,
    pub title: Seq<char>,
    pub author: Seq<char>,
}

impl View for AudiobookFmt {
    type V = AudiobookFmtView;

    open spec fn view(&self) -> AudiobookFmtView {
        AudiobookFmtView { hash: self.hash@, title: self.title@, author: self.author@ }
    }
}

impl View for Audiobooks {
    type V = Seq<AudiobookFmtView>;

    open spec fn view(&self) -> Seq<AudiobookFmtView> {
        Seq::new(self.audiobooks@.len(), |i: int| self.audiobooks@[i]@)
    }
}

/// The CRC-32 checksum (IEEE) of a sequence of bytes, as `crc32fast`
/// computes it.
pub uninterp spec fn crc32(bytes: Seq<u8>) -> u32;

/// `crc32fast::hash` computes the CRC-32 checksum of the bytes it is given.
pub assume_specification[ crc32fast::hash ](buf: &[u8]) -> (sum: u32)
    ensures
        sum == crc32(buf@),
;

/// The identifier of the audiobook with this title and author: the
/// checksum of the UTF-8 bytes of the title followed directly by those of
/// the author, in lowercase hexadecimal without leading zeros.
pub open spec fn content_id(title: Seq<char>, author: Seq<char>) -> Seq<char> {
    lower_hex(crc32(encode_utf8(title + author)) as nat)
}

/// Computes the identifier of an audiobook from its title and author.
pub fn compute_hash(title: String, author: String) -> (hash: String)
    ensures
        hash@ == content_id(title@, author@),
{
    let input = title.concat(author.as_str());
    let crc = crc32fast::hash(input.as_str().as_bytes());
    to_lower_hex(crc)
}

/// The identifier depends on the title and the author only through their
/// concatenation: two pairs that read the same when written one after the
/// other have the same identifier.
pub proof fn lemma_content_id_of_concatenation(
    title1: Seq<char>,
    author1: Seq<char>,
    title2: Seq<char>,
    author2: Seq<char>,
)
    requires
        title1 + author1 == title2 + author2,
    ensures
        content_id(title1, author1) == content_id(title2, author2),
{
}

/// An identifier is short: between one and eight characters, all of them
/// lowercase hexadecimal digits.
pub proof fn lemma_content_id_is_short(title: Seq<char>, author: Seq<char>)
    ensures
        1 <= content_id(title, author).len() <= 8,
        forall|i: int|
            0 <= i < content_id(title, author).len() ==> is_hex_digit(
                #[trigger] content_id(title, author)[i],
            ),
{
    lemma_lower_hex(crc32(encode_utf8(title + author)) as nat);
}

} // verus!
