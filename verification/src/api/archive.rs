//! Building the compressed archive of one audiobook directory.
//!
//! The caller reads the directory and hands over a [`Listing`]. The regular
//! files of the listing become the members of a tar container, in listing
//! order, and the finished container is compressed with gzip. Either the
//! whole archive is returned or an error: never a truncated archive.

use vstd::prelude::*;
use vstd::utf8::encode_utf8;

verus! {

/// Why something on disk could not be read.
#[derive(Debug, Clone, Copy, PartialEq, Eq, Structural)]
pub enum ReadError {
    /// It is not there, as when the directory of an audiobook is gone.
    NotFound,
    /// It may not be read.
    PermissionDenied,
    /// Anything else.
    Other,
}

/// What reading one entry of a directory gave.
#[derive(Debug, PartialEq, Eq)]
pub enum Listed {
    /// The entry itself could not be read.
    Unreadable(ReadError),
    /// Anything but a regular file, such as a subdirectory.
    NotFile,
    /// A regular file without a name that can be written: its path has no
    /// final component, or the component is no text.
    Nameless,
    /// A regular file: its name without any directory prefix, its
    /// permission bits, and its contents, or why they could not be read.
    File { name: String, mode: u32, contents: Result<Vec<u8>, ReadError> },
}

/// What reading a directory gave.
#[derive(Debug, PartialEq, Eq)]
pub enum Listing {
    /// The directory could not be read at all.
    Unreadable(ReadError),
    /// The entries of the directory, in the order in which they were read.
    Entries(Vec<Listed>),
}

/// Why no archive was built.
#[derive(Debug, Clone, Copy, PartialEq, Eq, Structural)]
pub enum ArchiveError {
    /// The directory could not be read.
    DirectoryUnreadable(ReadError),
    /// An entry of the directory could not be read.
    EntryUnreadable(ReadError),
    /// A regular file has no file name that can be written.
    NoFileName,
    /// The name of a regular file is not one plain path component.
    BadFileName,
    /// The contents of a regular file could not be read.
    FileUnreadable(ReadError),
    /// The container refused a member. A container that is written to
    /// memory takes every member with a plain name.
    AppendFailed,
    /// The container could not be finished. A container that is written to
    /// memory always can.
    FinishFailed,
    /// The finished container could not be compressed.
    CompressFailed,
}

/// A member of a container: its name, its permission bits and its contents.
pub type Member = (Seq<char>, u32, Seq<u8>);

/// The header of a member holds seven octal digits of permission bits:
/// those below this limit.
pub const MODE_LIMIT: u32 = 0o10000000;

/// Whether the UTF-8 bytes of a name are one plain path component: not
/// empty, without a slash or a NUL byte, and neither `.` nor `..`. Only
/// such a name is a file name without a directory prefix.
pub open spec fn plain_name(bytes: Seq<u8>) -> bool {
    &&& bytes.len() > 0
    &&& forall|i: int| 0 <= i < bytes.len() ==> #[trigger] bytes[i] != 0x2f && bytes[i] != 0
    &&& !(bytes.len() == 1 && bytes[0] == 0x2e)
    &&& !(bytes.len() == 2 && bytes[0] == 0x2e && bytes[1] == 0x2e)
}

/// The error, if any, that one entry puts an end to the build with.
pub open spec fn failure(entry: Listed) -> Option<ArchiveError> {
    match entry {
        Listed::Unreadable(why) => Some(ArchiveError::EntryUnreadable(why)),
        Listed::NotFile => None,
        Listed::Nameless => Some(ArchiveError::NoFileName),
        Listed::File { name, contents, .. } => if !plain_name(encode_utf8(name@)) {
            Some(ArchiveError::BadFileName)
        } else {
            match contents {
                Err(why) => Some(ArchiveError::FileUnreadable(why)),
                Ok(_) => None,
            }
        },
    }
}

/// The failure of the first entry that has one.
pub open spec fn first_failure(entries: Seq<Listed>) -> Option<ArchiveError>
    decreases entries.len(),
{
    if entries.len() == 0 {
        None
    } else if failure(entries[0]) is Some {
        failure(entries[0])
    } else {
        first_failure(entries.drop_first())
    }
}

/// The readable regular files among `entries`, in order, each with the
/// permission bits that a header holds. Entries that are not regular files
/// contribute nothing.
pub open spec fn members(entries: Seq<Listed>) -> Seq<Member>
    decreases entries.len(),
{
    if entries.len() == 0 {
        Seq::empty()
    } else {
        let before = members(entries.drop_last());
        match entries.last() {
            Listed::File { name, mode, contents: Ok(data) } => before.push(
                (name@, (mode % MODE_LIMIT) as u32, data@),
            ),
            _ => before,
        }
    }
}

/// What the archive of a sequence of entries is made of, or why there is
/// none.
pub open spec fn plan_of(entries: Seq<Listed>) -> Result<Seq<Member>, ArchiveError> {
    match first_failure(entries) {
        Some(e) => Err(e),
        None => Ok(members(entries)),
    }
}

/// What the archive of a listing is made of, or why there is none.
pub open spec fn plan(dir: Listing) -> Result<Seq<Member>, ArchiveError> {
    match dir {
        Listing::Unreadable(why) => Err(ArchiveError::DirectoryUnreadable(why)),
        Listing::Entries(entries) => plan_of(entries@),
    }
}

/// The members of two runs of entries are those of the first run followed
/// by those of the second.
pub proof fn lemma_members_of_both(front: Seq<Listed>, back: Seq<Listed>)
    ensures
        members(front + back) == members(front) + members(back),
    decreases back.len(),
{
    if back.len() == 0 {
        assert(front + back =~= front);
        assert(members(front) + members(back) =~= members(front));
    } else {
        lemma_members_of_both(front, back.drop_last());
        assert((front + back).drop_last() =~= front + back.drop_last());
        assert((front + back).last() == back.last());
        match back.last() {
            Listed::File { name, mode, contents: Ok(data) } => {
                assert(members(front + back) =~= members(front) + members(back));
            },
            _ => {},
        }
    }
}

/// The first failure of two runs of entries is that of the first run, or
/// else that of the second.
pub proof fn lemma_first_failure_of_both(front: Seq<Listed>, back: Seq<Listed>)
    ensures
        first_failure(front + back) == match first_failure(front) {
            Some(e) => Some(e),
            None => first_failure(back),
        },
    decreases front.len(),
{
    if front.len() == 0 {
        assert(front + back =~= back);
    } else {
        assert((front + back)[0] == front[0]);
        assert((front + back).drop_first() =~= front.drop_first() + back);
        lemma_first_failure_of_both(front.drop_first(), back);
    }
}

/// An entry that is no regular file, such as a subdirectory, is left out:
/// the archive is planned as if the entry were not there.
pub proof fn lemma_plan_leaves_out(entries: Seq<Listed>, i: int)
    requires
        0 <= i < entries.len(),
        entries[i] is NotFile,
    ensures
        plan_of(entries) == plan_of(entries.remove(i)),
{
    let front = entries.take(i);
    let one = seq![entries[i]];
    let back = entries.skip(i + 1);
    assert(entries =~= front + (one + back));
    assert(entries.remove(i) =~= front + back);
    lemma_members_of_both(front, one + back);
    lemma_members_of_both(one, back);
    lemma_members_of_both(front, back);
    lemma_first_failure_of_both(front, one + back);
    lemma_first_failure_of_both(one, back);
    lemma_first_failure_of_both(front, back);
    assert(one.drop_last() =~= Seq::<Listed>::empty());
    assert(members(one.drop_last()) =~= Seq::<Member>::empty());
    assert(one.last() == entries[i]);
    assert(members(one) =~= Seq::<Member>::empty());
    assert(first_failure(one.drop_first()) is None);
    assert(members(one) + members(back) =~= members(back));
}

/// Entries without a failure before position `k` do not decide the first
/// failure.
proof fn lemma_first_failure_skip(entries: Seq<Listed>, k: int)
    requires
        0 <= k <= entries.len(),
        forall|j: int| 0 <= j < k ==> failure(#[trigger] entries[j]) is None,
    ensures
        first_failure(entries) == first_failure(entries.skip(k)),
    decreases k,
{
    if k == 0 {
        assert(entries.skip(0) =~= entries);
    } else {
        let rest = entries.drop_first();
        assert forall|j: int| 0 <= j < k - 1 implies failure(#[trigger] rest[j]) is None by {
            assert(rest[j] == entries[j + 1]);
        }
        lemma_first_failure_skip(rest, k - 1);
        assert(rest.skip(k - 1) =~= entries.skip(k));
    }
}

/// Where no entry has a failure, none of them has one.
pub proof fn lemma_no_failure(entries: Seq<Listed>, i: int)
    requires
        first_failure(entries) is None,
        0 <= i < entries.len(),
    ensures
        failure(entries[i]) is None,
    decreases i,
{
    if i > 0 {
        assert(entries.drop_first()[i - 1] == entries[i]);
        lemma_no_failure(entries.drop_first(), i - 1);
    }
}

/// Whether `name` is one plain path component.
pub fn is_plain_name(name: &str) -> (r: bool)
    ensures
        r == plain_name(encode_utf8(name@)),
{
    let bytes = name.as_bytes();
    let n = bytes.len();
    if n == 0 {
        return false;
    }
    if n == 1 && bytes[0] == 0x2e {
        return false;
    }
    if n == 2 && bytes[0] == 0x2e && bytes[1] == 0x2e {
        return false;
    }
    let mut i: usize = 0;
    while i < n
        invariant
            i <= n,
            n == bytes@.len(),
            bytes@ == encode_utf8(name@),
            forall|j: int| 0 <= j < i ==> #[trigger] bytes@[j] != 0x2f && bytes@[j] != 0,
        decreases n - i,
    {
        if bytes[i] == 0x2f || bytes[i] == 0 {
            return false;
        }
        i += 1;
    }
    true
}

/// The error that the listing itself puts an end to the build with, before
/// anything is written: that of an unreadable directory, or else of the
/// first entry that has one.
pub fn listing_failure(dir: &Listing) -> (r: Option<ArchiveError>)
    ensures
        r == match plan(*dir) {
            Err(e) => Some(e),
            Ok(_) => None,
        },
{
    match dir {
        Listing::Unreadable(why) => Some(ArchiveError::DirectoryUnreadable(*why)),
        Listing::Entries(entries) => {
            let mut i: usize = 0;
            while i < entries.len()
                invariant
                    *dir == Listing::Entries(*entries),
                    i <= entries.len(),
                    forall|j: int| 0 <= j < i ==> failure(#[trigger] entries@[j]) is None,
                decreases entries.len() - i,
            {
                let found = match &entries[i] {
                    Listed::Unreadable(why) => Some(ArchiveError::EntryUnreadable(*why)),
                    Listed::NotFile => None,
                    Listed::Nameless => Some(ArchiveError::NoFileName),
                    Listed::File { name, contents, .. } => if !is_plain_name(name.as_str()) {
                        Some(ArchiveError::BadFileName)
                    } else {
                        match contents {
                            Err(why) => Some(ArchiveError::FileUnreadable(*why)),
                            Ok(_) => None,
                        }
                    },
                };
                if found.is_some() {
                    proof {
                        lemma_first_failure_skip(entries@, i as int);
                        assert(entries@.skip(i as int)[0] == entries@[i as int]);
                        assert(found == failure(entries@[i as int]));
                    }
                    return found;
                }
                i += 1;
            }
            proof {
                lemma_first_failure_skip(entries@, entries@.len() as int);
            }
            None
        },
    }
}

/// A tar container under construction: a `tar::Builder` that writes to a
/// vector in memory. Nothing is known of it but what [`appended`] says.
#[verifier::external_body]
pub struct Container {
    builder: tar::Builder<Vec<u8>>,
}

/// `std::io::Error`: why a writer, the container or the compressor gave
/// up. It is only ever passed on.
#[verifier::external_type_specification]
#[verifier::external_body]
pub struct ExIoError(std::io::Error);

/// The members that a container has accepted so far, in order: the names,
/// permission bits and contents that were handed to it.
pub uninterp spec fn appended(container: Container) -> Seq<Member>;

/// The bytes that `tar::Builder::into_inner` hands out for a container that
/// has accepted `members`: a GNU header and the padded contents for each,
/// then the end of the archive.
pub uninterp spec fn tar_stream(members: Seq<Member>) -> Seq<u8>;

/// The gzip stream that `flate2` compresses `data` to at its default
/// level.
pub uninterp spec fn gzip_stream(data: Seq<u8>) -> Seq<u8>;

/// Whether `flate2` compresses `data` without an error.
pub uninterp spec fn gzip_takes(data: Seq<u8>) -> bool;

/// Why there is no archive of `wanted`, if there is none: the compressor
/// refuses the finished container. The container itself takes every member
/// with a plain name and can always be finished.
pub open spec fn build_failure(wanted: Seq<Member>) -> Option<ArchiveError> {
    if !gzip_takes(tar_stream(wanted)) {
        Some(ArchiveError::CompressFailed)
    } else {
        None
    }
}

/// The archive that holds `members`: their tar container, compressed.
pub open spec fn archive_of(members: Seq<Member>) -> Seq<u8> {
    gzip_stream(tar_stream(members))
}

/// `tar::Builder::new` on an empty vector: a container without members.
#[verifier::external_body]
pub(crate) fn new_container() -> (container: Container)
    ensures
        appended(container) == Seq::<Member>::empty(),
{
    Container { builder: tar::Builder::new(Vec::new()) }
}

/// `tar::Builder::append_data` with a fresh GNU header that carries the
/// length of `data` and `mode`. The name is one plain path component and
/// the mode fits the header, so both are stored as they are handed in: a
/// name of up to a hundred bytes in the header, a longer one in an entry
/// of its own before it. The container writes to memory, which takes
/// whatever is written to it, so the call does not fail, and the container
/// has accepted one more member, made of the three arguments.
#[verifier::external_body]
pub(crate) fn append_member(container: Container, name: &str, mode: u32, data: &Vec<u8>) -> (r:
    Result<Container, std::io::Error>)
    requires
        plain_name(encode_utf8(name@)),
        mode < MODE_LIMIT,
    ensures
        r is Ok,
        r matches Ok(after) ==> appended(after) == appended(container).push((name@, mode, data@)),
{
    let mut builder = container.builder;
    let mut header = tar::Header::new_gnu();
    header.set_size(data.len() as u64);
    header.set_mode(mode);
    builder.append_data(&mut header, name, data.as_slice())?;
    Ok(Container { builder })
}

/// `tar::Builder::into_inner`: writes the end of the container and hands
/// out its bytes, which depend on nothing but the accepted members. The
/// end is written to a vector in memory, which takes whatever is written
/// to it, so the call does not fail.
#[verifier::external_body]
pub(crate) fn finish_container(container: Container) -> (r: Result<Vec<u8>, std::io::Error>)
    ensures
        r is Ok,
        r matches Ok(bytes) ==> bytes@ == tar_stream(appended(container)),
{
    container.builder.into_inner()
}

/// `flate2::write::GzEncoder` at `Compression::default()`, fed all of `data`
/// and finished. It writes to memory: whether it succeeds, and the stream
/// that comes out, depend on nothing but `data`.
#[verifier::external_body]
pub(crate) fn gzip(data: &Vec<u8>) -> (r: Result<Vec<u8>, std::io::Error>)
    ensures
        r is Ok <==> gzip_takes(data@),
        r matches Ok(stream) ==> stream@ == gzip_stream(data@),
{
    let mut encoder = flate2::write::GzEncoder::new(Vec::new(), flate2::Compression::default());
    std::io::Write::write_all(&mut encoder, data.as_slice())?;
    encoder.finish()
}

} // verus!
