use tar_light::tar::archive::is_empty_block;
use tar_light::tar::{read_tar, write_tar, TarEntry, TarHeader};

fn entry(name: &str, data: &[u8]) -> TarEntry {
    let header = TarHeader::new(name.to_string(), 0o644, data.len() as u64);
    let header_bytes = header.to_bytes();
    TarEntry { header, data: data.to_vec(), header_bytes }
}

fn typed(name: &str, data: &[u8], typeflag: u8) -> TarEntry {
    let mut header = TarHeader::new(name.to_string(), 0o644, data.len() as u64);
    header.typeflag = typeflag;
    let header_bytes = header.to_bytes();
    TarEntry { header, data: data.to_vec(), header_bytes }
}

#[test]
fn is_empty_block_tells_nul_bytes_from_others() {
    assert!(is_empty_block(&[0u8; 512]));
    assert!(is_empty_block(&[]));
    let mut block = [0u8; 512];
    block[511] = 1;
    assert!(!is_empty_block(&block));
    block[511] = 0;
    block[0] = 1;
    assert!(!is_empty_block(&block));
}

#[test]
fn the_archive_of_no_entries_is_the_terminator() {
    let data = write_tar(&[]);
    assert_eq!(data, vec![0u8; 1024]);
    assert!(read_tar(&data).is_empty());
}

#[test]
fn one_small_entry_gives_four_blocks() {
    let e = entry("hello.txt", b"Hello, World");
    let block = e.header.to_bytes();
    let data = write_tar(&[e]);
    assert_eq!(data.len(), 2048);
    assert_eq!(&data[0..512], &block[..]);
    assert_eq!(&data[512..524], b"Hello, World");
    assert!(data[524..2048].iter().all(|&b| b == 0));

    let read = read_tar(&data);
    assert_eq!(read.len(), 1);
    assert_eq!(read[0].header.name, "hello.txt");
    assert_eq!(read[0].header.mode, 0o644);
    assert_eq!(read[0].header.size, 12);
    assert_eq!(read[0].data, b"Hello, World");
    assert_eq!(read[0].header_bytes, block);
}

#[test]
fn the_payload_is_padded_to_the_next_block() {
    assert_eq!(write_tar(&[entry("a", b"")]).len(), 512 + 1024);
    assert_eq!(write_tar(&[entry("a", &[1u8; 1])]).len(), 512 + 512 + 1024);
    assert_eq!(write_tar(&[entry("a", &[1u8; 511])]).len(), 512 + 512 + 1024);
    assert_eq!(write_tar(&[entry("a", &[1u8; 512])]).len(), 512 + 512 + 1024);
    assert_eq!(write_tar(&[entry("a", &[1u8; 513])]).len(), 512 + 1024 + 1024);
    assert_eq!(write_tar(&[entry("a", &[1u8; 1024])]).len(), 512 + 1024 + 1024);
    let data = write_tar(&[entry("a", &[1u8; 513])]);
    assert!(data[512..1025].iter().all(|&b| b == 1));
    assert!(data[1025..].iter().all(|&b| b == 0));
}

#[test]
fn entries_are_written_and_read_in_order() {
    let payloads: Vec<Vec<u8>> =
        vec![vec![], vec![7u8; 3], vec![8u8; 512], vec![9u8; 700], b"last".to_vec()];
    let entries: Vec<TarEntry> =
        payloads.iter().enumerate().map(|(i, p)| entry(&format!("f{}.bin", i), p)).collect();
    let data = write_tar(&entries);
    assert_eq!(data.len(), 5 * 512 + 0 + 512 + 512 + 1024 + 512 + 1024);
    let read = read_tar(&data);
    assert_eq!(read.len(), 5);
    for (i, e) in read.iter().enumerate() {
        assert_eq!(e.header.name, format!("f{}.bin", i));
        assert_eq!(e.header.size, payloads[i].len() as u64);
        assert_eq!(e.data, payloads[i]);
        assert_eq!(e.header_bytes, entries[i].header.to_bytes());
    }
}

#[test]
fn write_tar_computes_every_block_afresh() {
    let mut e = entry("before.txt", b"abc");
    e.header.name = "after.txt".to_string();
    e.header_bytes = [0xaa; 512];
    let want = e.header.to_bytes();
    let data = write_tar(&[e]);
    assert_eq!(&data[0..512], &want[..]);
    let read = read_tar(&data);
    assert_eq!(read[0].header.name, "after.txt");
    assert!(read[0].header.verify_checksum(&read[0].header_bytes));
}

#[test]
fn write_tar_writes_the_payload_that_is_there() {
    let mut e = entry("big.txt", b"tiny");
    e.header.size = 1000000;
    let data = write_tar(&[e]);
    assert_eq!(data.len(), 512 + 512 + 1024);
    assert_eq!(&data[512..516], b"tiny");
    assert!(read_tar(&data).is_empty());
}

#[test]
fn a_header_that_claims_less_than_its_payload_reads_the_claimed_part() {
    let mut e = entry("part.txt", b"abcdefgh");
    e.header.size = 3;
    let read = read_tar(&write_tar(&[e]));
    assert_eq!(read.len(), 1);
    assert_eq!(read[0].header.size, 3);
    assert_eq!(read[0].data, b"abc");
}

#[test]
fn entries_that_are_no_regular_files_are_passed_over() {
    let entries = vec![
        entry("first.txt", b"one"),
        typed("link", b"", b'1'),
        typed("symlink", b"", b'2'),
        typed("char", b"", b'3'),
        typed("block", b"", b'4'),
        typed("dir/", b"", b'5'),
        typed("fifo", b"", b'6'),
        typed("contiguous", b"seven", b'7'),
        typed("extended", &[b'x'; 600], b'x'),
        typed("global", b"g", b'g'),
        typed("longname", b"L", b'L'),
        typed("old.txt", b"old style", 0),
        entry("last.txt", b"two"),
    ];
    let read = read_tar(&write_tar(&entries));
    assert_eq!(read.len(), 3);
    assert_eq!(read[0].header.name, "first.txt");
    assert_eq!(read[0].data, b"one");
    assert_eq!(read[1].header.name, "old.txt");
    assert_eq!(read[1].header.typeflag, 0);
    assert_eq!(read[1].data, b"old style");
    assert_eq!(read[2].header.name, "last.txt");
    assert_eq!(read[2].data, b"two");
    for e in &read {
        assert!(e.header.typeflag == b'0' || e.header.typeflag == 0);
    }
}

#[test]
fn every_other_type_flag_is_dropped_whatever_the_payload() {
    for flag in 0..=255u8 {
        let read = read_tar(&write_tar(&[typed("x", b"payload", flag), entry("y", b"z")]));
        if flag == b'0' || flag == 0 {
            assert_eq!(read.len(), 2);
            assert_eq!(read[0].data, b"payload");
        } else {
            assert_eq!(read.len(), 1, "flag {}", flag);
        }
        assert_eq!(read[read.len() - 1].header.name, "y");
    }
}

#[test]
fn reading_stops_at_a_block_of_nul_bytes() {
    let mut data = write_tar(&[entry("a", b"1")]);
    let more = write_tar(&[entry("b", b"2")]);
    data.extend_from_slice(&more);
    let read = read_tar(&data);
    assert_eq!(read.len(), 1);
    assert_eq!(read[0].header.name, "a");
}

#[test]
fn reading_needs_no_terminator() {
    let data = write_tar(&[entry("a", b"1"), entry("b", b"22")]);
    let cut = &data[..data.len() - 1024];
    let read = read_tar(cut);
    assert_eq!(read.len(), 2);
    assert_eq!(read[1].data, b"22");
    let no_padding = &data[..512 + 512 + 512 + 2];
    let read = read_tar(no_padding);
    assert_eq!(read.len(), 2);
    assert_eq!(read[1].data, b"22");
}

#[test]
fn a_header_that_claims_more_than_is_left_ends_the_reading() {
    let header = TarHeader::new("incomplete.txt".to_string(), 0o644, 1000);
    let mut data = Vec::new();
    data.extend_from_slice(&header.to_bytes());
    data.extend_from_slice(b"short");
    assert_eq!(read_tar(&data).len(), 0);

    let mut after = write_tar(&[entry("whole.txt", b"kept")]);
    after.truncate(1024);
    after.extend_from_slice(&data);
    let read = read_tar(&after);
    assert_eq!(read.len(), 1);
    assert_eq!(read[0].header.name, "whole.txt");
    assert_eq!(read[0].data, b"kept");
}

#[test]
fn a_payload_that_ends_with_the_input_is_read() {
    let header = TarHeader::new("exact.txt".to_string(), 0o644, 5);
    let mut data = Vec::new();
    data.extend_from_slice(&header.to_bytes());
    data.extend_from_slice(b"short");
    let read = read_tar(&data);
    assert_eq!(read.len(), 1);
    assert_eq!(read[0].data, b"short");
    data.pop();
    assert!(read_tar(&data).is_empty());
}

#[test]
fn input_shorter_than_a_block_holds_nothing() {
    assert!(read_tar(&[]).is_empty());
    assert!(read_tar(&[1u8; 511]).is_empty());
    let block = TarHeader::new("a".to_string(), 0o644, 0).to_bytes();
    assert!(read_tar(&block[..511]).is_empty());
    assert_eq!(read_tar(&block).len(), 1);
}

#[test]
fn a_block_that_is_no_header_reads_as_an_empty_entry() {
    let mut data = vec![0u8; 1024];
    data[0] = 0xff;
    let read = read_tar(&data);
    assert_eq!(read.len(), 1);
    assert_eq!(read[0].header.name, "\u{fffd}");
    assert_eq!(read[0].header.size, 0);
    assert_eq!(read[0].header.typeflag, 0);
    assert!(read[0].data.is_empty());
    assert!(!read[0].header.verify_checksum(&read[0].header_bytes));
}

#[test]
fn the_padding_is_not_looked_at() {
    let mut data = write_tar(&[entry("a", b"1"), entry("b", b"2")]);
    for b in data[513..1024].iter_mut() {
        *b = 0xee;
    }
    let read = read_tar(&data);
    assert_eq!(read.len(), 2);
    assert_eq!(read[0].data, b"1");
    assert_eq!(read[1].header.name, "b");
}

#[test]
fn a_huge_size_does_not_make_the_reader_allocate() {
    let mut block = TarHeader::new("huge".to_string(), 0o644, 0).to_bytes();
    block[124..136].copy_from_slice(b"777777777777");
    let mut data = block.to_vec();
    data.extend_from_slice(&[0u8; 2048]);
    assert!(read_tar(&data).is_empty());
}

#[test]
fn names_and_payloads_come_back_as_they_went() {
    let names = [
        "a", "dir/sub/file.txt", "with space.txt", "ünïcödé.txt", "日本語/ファイル", "a\0b",
        "..", "/abs", "x.tar.gz",
    ];
    let mut entries = Vec::new();
    for (i, name) in names.iter().enumerate() {
        let payload: Vec<u8> = (0..(i * 137)).map(|k| (k * 31 + i) as u8).collect();
        entries.push(entry(name, &payload));
        entries.push(typed(&format!("skip{}", i), &payload, b'5'));
    }
    let read = read_tar(&write_tar(&entries));
    assert_eq!(read.len(), names.len());
    for (i, e) in read.iter().enumerate() {
        assert_eq!(e.header.name, names[i]);
        assert_eq!(e.header.size, entries[2 * i].data.len() as u64);
        assert_eq!(e.data, entries[2 * i].data);
    }
}
