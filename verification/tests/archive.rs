use std::io::Write;

use target_gen::error::SourceError;
use target_gen::source::{open_archive, open_pack_archive, read_member, PackContents};

fn build_zip(members: &[(&str, &[u8])]) -> Vec<u8> {
    let cursor = std::io::Cursor::new(Vec::new());
    let mut writer = zip::ZipWriter::new(cursor);
    let options = zip::write::SimpleFileOptions::default();
    for (name, bytes) in members {
        writer.start_file(*name, options).unwrap();
        writer.write_all(bytes).unwrap();
    }
    writer.finish().unwrap().into_inner()
}

#[test]
fn finds_and_reads_the_descriptor_in_an_archive() {
    let bytes = build_zip(&[
        ("firmware/algo.flm", b"not a descriptor"),
        ("Vendor.Family.pdsc", b"<package>demo</package>"),
    ]);
    let (text, _archive) = open_pack_archive(bytes).unwrap();
    assert_eq!(text, b"<package>demo</package>".to_vec());
}

#[test]
fn archive_members_read_back_their_own_bytes() {
    let bytes = build_zip(&[
        ("Vendor.Family.pdsc", b"<package/>"),
        ("Flash/Algo.FLM", b"\x7fELFdemo-payload"),
    ]);
    let archive = open_archive(bytes).unwrap();
    let mut contents = PackContents::Archive(archive);
    let payload = read_member(&mut contents, "Flash/Algo.FLM").unwrap();
    assert_eq!(payload, b"\x7fELFdemo-payload".to_vec());
    let missing = read_member(&mut contents, "Flash/Other.FLM");
    assert!(matches!(missing, Err(SourceError::MissingMember)));
}

#[test]
fn archive_without_descriptor_is_an_error() {
    let bytes = build_zip(&[("only/data.bin", b"x")]);
    assert!(matches!(open_pack_archive(bytes), Err(SourceError::NoDescriptor)));
}

#[test]
fn unsafe_member_names_are_not_descriptor_candidates() {
    // a descriptor whose name climbs out of the root is not taken
    let bytes = build_zip(&[("../evil.pdsc", b"<package/>")]);
    assert!(matches!(open_pack_archive(bytes), Err(SourceError::NoDescriptor)));
}

#[test]
fn preloaded_members_resolve_to_the_first_matching_name() {
    let mut contents = PackContents::Members(vec![
        ("Algo.FLM".to_string(), b"first".to_vec()),
        ("Algo.FLM".to_string(), b"second".to_vec()),
    ]);
    assert_eq!(read_member(&mut contents, "Algo.FLM").unwrap(), b"first".to_vec());
    assert!(matches!(
        read_member(&mut contents, "Other.FLM"),
        Err(SourceError::MissingMember)
    ));
}

#[test]
fn corrupt_container_is_rejected() {
    let bytes = vec![0x50, 0x4b, 0x00, 0x00, 0x01];
    assert!(matches!(open_archive(bytes), Err(SourceError::InvalidContainer)));
}

#[test]
fn first_descriptor_wins_when_several_exist() {
    let bytes = build_zip(&[
        ("A.pdsc", b"first"),
        ("B.pdsc", b"second"),
    ]);
    let (text, _archive) = open_pack_archive(bytes).unwrap();
    assert_eq!(text, b"first".to_vec());
}
