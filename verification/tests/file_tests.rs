use tar_light::extract::{on_answer, on_entry, read_answer, Answer, Step};
use tar_light::file::{file_entry, into_headers, FileMetadata};
use tar_light::gzip::GzipError;
use tar_light::tar::{read_tar, write_tar, TarEntry, TarHeader};
use tar_light::{list, list_entry, pack};

fn entry(name: &str, data: &[u8]) -> TarEntry {
    file_entry(name.to_string(), data.to_vec(), None)
}

#[test]
fn file_entry_without_metadata() {
    let e = file_entry("plain.txt".to_string(), b"Hello, World!".to_vec(), None);
    assert_eq!(e.header.name, "plain.txt");
    assert_eq!(e.header.mode, 0o644);
    assert_eq!(e.header.size, 13);
    assert_eq!(e.header.uid, 0);
    assert_eq!(e.header.gid, 0);
    assert_eq!(e.header.mtime, 0);
    assert_eq!(e.header.typeflag, b'0');
    assert_eq!(e.header.uname, "");
    assert_eq!(e.header.gname, "");
    assert_eq!(e.data, b"Hello, World!");
    assert_eq!(e.header_bytes, e.header.to_bytes());
    let same = TarHeader::new("plain.txt".to_string(), 0o644, 13);
    assert_eq!(e.header_bytes, same.to_bytes());
}

#[test]
fn file_entry_with_metadata() {
    let meta = FileMetadata {
        mode: 0o100755,
        uid: 1000,
        gid: 100,
        mtime: 1700000000,
        uname: Some("alice".to_string()),
        gname: None,
    };
    let e = file_entry("sub/run.sh".to_string(), b"#!/bin/sh\n".to_vec(), Some(meta));
    assert_eq!(e.header.name, "sub/run.sh");
    assert_eq!(e.header.mode, 0o100755);
    assert_eq!(e.header.uid, 1000);
    assert_eq!(e.header.gid, 100);
    assert_eq!(e.header.mtime, 1700000000);
    assert_eq!(e.header.size, 10);
    assert_eq!(e.header.uname, "alice");
    assert_eq!(e.header.gname, "");
    assert_eq!(e.header.typeflag, b'0');
    assert_eq!(e.header.magic, "ustar");
    assert_eq!(e.header_bytes, e.header.to_bytes());
    let read = TarHeader::from_bytes(&e.header_bytes);
    assert_eq!(read.mode, 0o100755);
    assert_eq!(read.uname, "alice");
    assert_eq!(read.mtime, 1700000000);
}

#[test]
fn pack_writes_an_archive() {
    let entries = vec![entry("test_file1.txt", b"Hello, World!"), entry("test_file2.txt", b"Test content 2")];
    let bytes = pack("test_pack.tar", &entries).unwrap();
    assert_eq!(bytes, write_tar(&entries));
    let read = read_tar(&bytes);
    assert_eq!(read.len(), 2);
    assert_eq!(read[0].header.name, "test_file1.txt");
    assert_eq!(read[1].header.name, "test_file2.txt");
}

#[test]
fn pack_compresses_where_the_name_asks_for_it() {
    let entries = vec![entry("test_gz_file1.txt", b"GZ test content 1"), entry("test_gz_file2.txt", b"GZ test content 2 longer")];
    let plain = pack("test_pack.tar", &entries).unwrap();
    let packed = pack("test_pack.tar.gz", &entries).unwrap();
    assert_ne!(packed, plain);
    assert_eq!(&packed[0..2], &[0x1f, 0x8b]);
    assert!(read_tar(&packed).is_empty() || read_tar(&packed)[0].header.name != "test_gz_file1.txt");

    let headers = list("test_pack.tar.gz", packed.clone()).unwrap();
    assert_eq!(headers.len(), 2);
    assert_eq!(headers[0].name, "test_gz_file1.txt");
    assert_eq!(headers[0].size, 17);
    assert_eq!(headers[1].name, "test_gz_file2.txt");
    assert_eq!(headers[1].size, 24);

    let read = list_entry("other.tgz", packed).unwrap();
    assert_eq!(read.len(), 2);
    assert_eq!(read[0].data, b"GZ test content 1");
    assert_eq!(read[1].data, b"GZ test content 2 longer");
}

#[test]
fn list_gives_the_headers_in_order() {
    let entries = vec![entry("test_list_file1.txt", b"Content 1"), entry("test_list_file2.txt", b"Content 2 longer")];
    let bytes = pack("test_list.tar", &entries).unwrap();
    let headers = list("test_list.tar", bytes.clone()).unwrap();
    assert_eq!(headers.len(), 2);
    assert_eq!(headers[0].name, "test_list_file1.txt");
    assert_eq!(headers[0].size, 9);
    assert_eq!(headers[1].name, "test_list_file2.txt");
    assert_eq!(headers[1].size, 16);
    let read = list_entry("test_list.tar", bytes).unwrap();
    assert_eq!(read.len(), 2);
    assert_eq!(read[0].header.size, 9);
    assert_eq!(read[1].data, b"Content 2 longer");
}

#[test]
fn list_reports_a_stream_that_cannot_be_read() {
    let bytes = pack("a.tar", &[entry("a", b"1")]).unwrap();
    assert!(matches!(list("a.tar.gz", bytes.clone()), Err(GzipError::Decompress(_))));
    assert!(matches!(list_entry("a.tgz", bytes.clone()), Err(GzipError::Decompress(_))));
    assert_eq!(list("a.tar", bytes).unwrap().len(), 1);
}

#[test]
fn list_of_what_is_no_archive_is_empty() {
    assert!(list("a.tar", Vec::new()).unwrap().is_empty());
    assert!(list_entry("a.tar", vec![0u8; 2048]).unwrap().is_empty());
}

#[test]
fn into_headers_keeps_the_order() {
    let mut second = entry("b", b"22");
    second.header.uid = 7;
    let headers = into_headers(vec![entry("a", b"1"), second, entry("c", b"333")]);
    assert_eq!(headers.len(), 3);
    assert_eq!(headers[0].name, "a");
    assert_eq!(headers[1].name, "b");
    assert_eq!(headers[1].uid, 7);
    assert_eq!(headers[2].name, "c");
    assert_eq!(headers[2].size, 3);
    assert!(into_headers(Vec::new()).is_empty());
}

#[test]
fn a_file_that_is_not_there_is_written() {
    for overwrite in [false, true] {
        for prompt in [false, true] {
            assert_eq!(on_entry(false, overwrite, prompt), Step::Write { overwritten: false });
        }
    }
}

#[test]
fn a_file_that_is_there_is_overwritten_skipped_or_asked_about() {
    assert_eq!(on_entry(true, true, false), Step::Write { overwritten: true });
    assert_eq!(on_entry(true, true, true), Step::Write { overwritten: true });
    assert_eq!(on_entry(true, false, true), Step::Ask);
    assert_eq!(on_entry(true, false, false), Step::Skip);
}

#[test]
fn answers_are_read_as_they_stand() {
    assert_eq!(read_answer("a"), Answer::All);
    assert_eq!(read_answer("all"), Answer::All);
    assert_eq!(read_answer("y"), Answer::Yes);
    assert_eq!(read_answer("yes"), Answer::Yes);
    assert_eq!(read_answer("n"), Answer::No);
    assert_eq!(read_answer("no"), Answer::No);
    assert_eq!(read_answer(""), Answer::No);
    assert_eq!(read_answer("A"), Answer::No);
    assert_eq!(read_answer("yes "), Answer::No);
    assert_eq!(read_answer("al"), Answer::No);
    assert_eq!(read_answer("ye"), Answer::No);
}

#[test]
fn an_answer_decides_the_step_and_what_follows() {
    assert_eq!(on_answer(Answer::All, false), (Step::Write { overwritten: true }, true));
    assert_eq!(on_answer(Answer::Yes, false), (Step::Write { overwritten: true }, false));
    assert_eq!(on_answer(Answer::No, false), (Step::Skip, false));
    assert_eq!(on_answer(Answer::All, true), (Step::Write { overwritten: true }, true));
    assert_eq!(on_answer(Answer::Yes, true), (Step::Write { overwritten: true }, true));
    assert_eq!(on_answer(Answer::No, true), (Step::Skip, true));
}
