use illiad::api::archive::{
    is_plain_name, listing_failure, ArchiveError, Listed, Listing, ReadError, MODE_LIMIT,
};
use illiad::api::controllers::{archive_directory, archive_response, get_audiobook};
use std::io::Read;

fn file(name: &str, contents: &[u8]) -> Listed {
    Listed::File { name: name.to_string(), mode: 0o644, contents: Ok(contents.to_vec()) }
}

fn unpack(bytes: &[u8]) -> Vec<(String, u32, Vec<u8>)> {
    let mut archive = tar::Archive::new(flate2::read::GzDecoder::new(bytes));
    let mut found = Vec::new();
    for entry in archive.entries().unwrap() {
        let mut entry = entry.unwrap();
        let name = entry.path().unwrap().to_string_lossy().to_string();
        let mode = entry.header().mode().unwrap();
        let mut contents = Vec::new();
        entry.read_to_end(&mut contents).unwrap();
        found.push((name, mode, contents));
    }
    found
}

#[test]
fn archive_holds_the_files_and_not_the_subdirectory() {
    let dir = Listing::Entries(vec![file("a.mp3", b"A"), Listed::NotFile, file("b.mp3", b"B")]);
    let bytes = archive_directory(&dir).unwrap();
    let found = unpack(&bytes);
    assert_eq!(
        found,
        vec![
            ("a.mp3".to_string(), 0o644, b"A".to_vec()),
            ("b.mp3".to_string(), 0o644, b"B".to_vec()),
        ]
    );
    assert!(found.iter().all(|(name, _, contents)| !name.starts_with("sub") && contents != b"C"));
}

#[test]
fn archive_is_a_gzip_stream() {
    let dir = Listing::Entries(vec![file("a.mp3", &[7; 4000])]);
    let bytes = archive_directory(&dir).unwrap();
    assert_eq!(&bytes[..2], &[0x1f, 0x8b]);
    assert!(bytes.len() < 4000);
    let mut tar = Vec::new();
    flate2::read::GzDecoder::new(&bytes[..]).read_to_end(&mut tar).unwrap();
    assert_eq!(tar.len() % 512, 0);
    assert_eq!(&tar[..5], b"a.mp3");
    assert_eq!(&tar[512..516], &[7, 7, 7, 7]);
}

#[test]
fn archive_is_the_same_for_the_same_listing() {
    let first = archive_directory(&Listing::Entries(vec![file("a.mp3", b"x"), Listed::NotFile]));
    let second = archive_directory(&Listing::Entries(vec![file("a.mp3", b"x"), Listed::NotFile]));
    let third = archive_directory(&Listing::Entries(vec![file("a.mp3", b"x")]));
    assert!(first.is_ok());
    assert_eq!(first, second);
    assert_eq!(first, third);
}

#[test]
fn archive_keeps_the_order_and_the_mode_of_the_files() {
    let dir = Listing::Entries(vec![
        Listed::File { name: "z".to_string(), mode: 0o600, contents: Ok(vec![]) },
        Listed::File { name: "a".to_string(), mode: 0o755, contents: Ok(vec![1, 2, 3]) },
    ]);
    let bytes = archive_directory(&dir).unwrap();
    assert_eq!(
        unpack(&bytes),
        vec![("z".to_string(), 0o600, vec![]), ("a".to_string(), 0o755, vec![1, 2, 3])]
    );
}

#[test]
fn archive_of_an_empty_directory_is_an_empty_container() {
    let bytes = archive_directory(&Listing::Entries(vec![])).unwrap();
    assert!(!bytes.is_empty());
    assert_eq!(unpack(&bytes), vec![]);
    let only_subdirectories = Listing::Entries(vec![Listed::NotFile, Listed::NotFile]);
    assert_eq!(archive_directory(&only_subdirectories).unwrap(), bytes);
}

#[test]
fn archive_takes_long_names() {
    let name = "n".repeat(150) + ".mp3";
    let bytes = archive_directory(&Listing::Entries(vec![file(&name, b"long")])).unwrap();
    assert_eq!(unpack(&bytes), vec![(name, 0o644, b"long".to_vec())]);
}

#[test]
fn unreadable_directory_gives_no_archive() {
    let gone = Listing::Unreadable(ReadError::NotFound);
    let error = ArchiveError::DirectoryUnreadable(ReadError::NotFound);
    assert_eq!(archive_directory(&gone), Err(error));
    assert_eq!(listing_failure(&gone), Some(error));
}

#[test]
fn unreadable_entry_gives_no_archive() {
    let dir = Listing::Entries(vec![
        file("a.mp3", b"x"),
        Listed::Unreadable(ReadError::Other),
        file("b.mp3", b"y"),
    ]);
    assert_eq!(archive_directory(&dir), Err(ArchiveError::EntryUnreadable(ReadError::Other)));
    assert_eq!(listing_failure(&dir), Some(ArchiveError::EntryUnreadable(ReadError::Other)));
}

#[test]
fn file_without_a_name_gives_no_archive() {
    let dir = Listing::Entries(vec![Listed::NotFile, Listed::Nameless]);
    assert_eq!(archive_directory(&dir), Err(ArchiveError::NoFileName));
}

#[test]
fn unreadable_file_gives_no_archive() {
    let dir = Listing::Entries(vec![
        file("a.mp3", b"x"),
        Listed::File {
            name: "b.mp3".to_string(),
            mode: 0o644,
            contents: Err(ReadError::PermissionDenied),
        },
    ]);
    let error = ArchiveError::FileUnreadable(ReadError::PermissionDenied);
    assert_eq!(archive_directory(&dir), Err(error));
}

#[test]
fn first_failure_in_listing_order_is_reported() {
    let dir = Listing::Entries(vec![
        Listed::NotFile,
        Listed::Nameless,
        Listed::Unreadable(ReadError::Other),
        Listed::File {
            name: "b.mp3".to_string(),
            mode: 0o644,
            contents: Err(ReadError::PermissionDenied),
        },
    ]);
    assert_eq!(listing_failure(&dir), Some(ArchiveError::NoFileName));
    let fine = Listing::Entries(vec![Listed::NotFile, file("a", b"")]);
    assert_eq!(listing_failure(&fine), None);
    assert_eq!(listing_failure(&Listing::Entries(vec![])), None);
}

#[test]
fn name_with_a_directory_prefix_gives_no_archive() {
    let names =
        ["sub/c.mp3", "../escape", "/etc/passwd", "a/", "", ".", "..", "a//b", "./a", "a\0b"];
    for name in names {
        let dir = Listing::Entries(vec![file("a.mp3", b"x"), file(name, b"y")]);
        assert_eq!(listing_failure(&dir), Some(ArchiveError::BadFileName));
        assert_eq!(archive_directory(&dir), Err(ArchiveError::BadFileName));
    }
}

#[test]
fn bad_name_is_found_before_unreadable_contents() {
    let dir = Listing::Entries(vec![Listed::File {
        name: "sub/c.mp3".to_string(),
        mode: 0o644,
        contents: Err(ReadError::PermissionDenied),
    }]);
    assert_eq!(archive_directory(&dir), Err(ArchiveError::BadFileName));
}

#[test]
fn plain_names_are_single_components() {
    for name in ["a.mp3", "a", "...", ".hidden", "a..b", "a b", "a\\b", "héllo.ogg", "a:b"] {
        assert!(is_plain_name(name));
    }
    for name in ["", ".", "..", "a/b", "/", "/a", "a/", "a/./b", "\0", "a\0"] {
        assert!(!is_plain_name(name));
    }
}

#[test]
fn mode_keeps_the_digits_that_a_header_holds() {
    assert_eq!(MODE_LIMIT, 0o10000000);
    let dir = Listing::Entries(vec![
        Listed::File { name: "a".to_string(), mode: 0o100644, contents: Ok(vec![1]) },
        Listed::File { name: "b".to_string(), mode: 0o7777777, contents: Ok(vec![2]) },
        Listed::File { name: "c".to_string(), mode: 0o30000755, contents: Ok(vec![3]) },
        Listed::File { name: "d".to_string(), mode: u32::MAX, contents: Ok(vec![4]) },
    ]);
    let bytes = archive_directory(&dir).unwrap();
    assert_eq!(
        unpack(&bytes),
        vec![
            ("a".to_string(), 0o100644, vec![1]),
            ("b".to_string(), 0o7777777, vec![2]),
            ("c".to_string(), 0o755, vec![3]),
            ("d".to_string(), 0o7777777, vec![4]),
        ]
    );
}

#[test]
fn client_is_given_the_archive_or_one_answer() {
    let dir = Listing::Entries(vec![file("a.mp3", b"x"), Listed::NotFile]);
    let bytes = get_audiobook(&dir).unwrap();
    assert_eq!(unpack(&bytes), vec![("a.mp3".to_string(), 0o644, b"x".to_vec())]);
    let answer = get_audiobook(&Listing::Unreadable(ReadError::NotFound)).unwrap_err();
    assert_eq!(answer.code, 5);
    assert_eq!(answer.msg, "Error, could not create binary data");
}

#[test]
fn every_build_error_is_answered_alike() {
    let errors = vec![
        ArchiveError::DirectoryUnreadable(ReadError::NotFound),
        ArchiveError::EntryUnreadable(ReadError::PermissionDenied),
        ArchiveError::NoFileName,
        ArchiveError::BadFileName,
        ArchiveError::FileUnreadable(ReadError::Other),
        ArchiveError::AppendFailed,
        ArchiveError::FinishFailed,
        ArchiveError::CompressFailed,
    ];
    for e in errors {
        let answer = archive_response(Err(e)).unwrap_err();
        assert_eq!(answer.code, 5);
    }
    assert_eq!(archive_response(Ok(vec![1, 2, 3])), Ok(vec![1, 2, 3]));
}

#[test]
fn kind_of_read_error_is_passed_on() {
    for why in [ReadError::NotFound, ReadError::PermissionDenied, ReadError::Other] {
        assert_eq!(
            archive_directory(&Listing::Unreadable(why)),
            Err(ArchiveError::DirectoryUnreadable(why))
        );
        let entry = Listing::Entries(vec![file("a", b"x"), Listed::Unreadable(why)]);
        assert_eq!(archive_directory(&entry), Err(ArchiveError::EntryUnreadable(why)));
        let contents = Listing::Entries(vec![Listed::File {
            name: "a".to_string(),
            mode: 0o644,
            contents: Err(why),
        }]);
        assert_eq!(archive_directory(&contents), Err(ArchiveError::FileUnreadable(why)));
    }
}
