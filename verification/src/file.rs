//! Archive files as bytes: what is written to a file of a given name, and
//! what is read from its bytes.
use vstd::prelude::*;
use crate::gzip::gzip;
use crate::gzip::gzipped;
use crate::gzip::is_gzip_name;
use crate::gzip::ungzip;
use crate::gzip::ungzipped;
use crate::gzip::GzipError;
use crate::tar::archive::archive_bytes;
use crate::tar::archive::entry_views;
use crate::tar::archive::read_entries;
use crate::tar::archive::read_tar;
use crate::tar::archive::write_tar;
use crate::tar::archive::EntryView;
use crate::tar::archive::TarEntry;
use crate::tar::header::encode_header;
use crate::tar::header::new_header;
use crate::tar::header::HeaderView;
use crate::tar::header::TarHeader;

verus! {

/// The mode of an entry that is made without metadata.
pub const DEFAULT_MODE: u32 = 0o644;

/// What a file system knows of a file, as far as a header holds it.
#[derive(Debug)]
pub struct FileMetadata {
    pub mode: u32,
    pub uid: u32,
    pub gid: u32,
    /// Seconds since the epoch.
    pub mtime: u64,
    /// The name of the owner, where one is known.
    pub uname: Option<String>,
    /// The name of the group, where one is known.
    pub gname: Option<String>,
}

/// Metadata as a plain value.
pub struct FileMetadataView {
    pub mode: u32,
    pub uid: u32,
    pub gid: u32,
    pub mtime: u64,
    pub uname: Option<Seq<char>>,
    pub gname: Option<Seq<char>>,
}

/// The characters of a text that may be absent.
pub open spec fn text_view(text: Option<String>) -> Option<Seq<char>> {
    match text {
        Some(s) => Some(s@),
        None => None,
    }
}

impl View for FileMetadata {
    type V = FileMetadataView;

    open spec fn view(&self) -> FileMetadataView {
        FileMetadataView {
            mode: self.mode,
            uid: self.uid,
            gid: self.gid,
            mtime: self.mtime,
            uname: text_view(self.uname),
            gname: text_view(self.gname),
        }
    }
}

/// The metadata of a value that may be absent.
pub open spec fn metadata_view(metadata: Option<FileMetadata>) -> Option<FileMetadataView> {
    match metadata {
        Some(m) => Some(m@),
        None => None,
    }
}

/// A text that may be absent, with the empty text in its place.
pub open spec fn text_or_empty(text: Option<Seq<char>>) -> Seq<char> {
    match text {
        Some(s) => s,
        None => Seq::empty(),
    }
}

/// The header of a regular file of `size` bytes under `name`. Without
/// metadata it has the default mode and nothing else.
pub open spec fn file_header(name: Seq<char>, size: u64, metadata: Option<FileMetadataView>)
    -> HeaderView {
    match metadata {
        Some(m) => HeaderView {
            mode: m.mode,
            uid: m.uid,
            gid: m.gid,
            mtime: m.mtime,
            uname: text_or_empty(m.uname),
            gname: text_or_empty(m.gname),
            ..new_header(name, DEFAULT_MODE, size)
        },
        None => new_header(name, DEFAULT_MODE, size),
    }
}

/// The headers of a list of entries.
pub open spec fn headers_of(entries: Seq<EntryView>) -> Seq<HeaderView> {
    entries.map_values(|e: EntryView| e.header)
}

/// A list of headers as plain values.
pub open spec fn header_views(headers: Seq<TarHeader>) -> Seq<HeaderView> {
    headers.map_values(|h: TarHeader| h@)
}

/// The entry of a regular file: its content as the payload, the size of the
/// content in the header, and the block of that header.
pub fn file_entry(name: String, data: Vec<u8>, metadata: Option<FileMetadata>) -> (entry: TarEntry)
    ensures
        entry@.header == file_header(name@, data@.len() as u64, metadata_view(metadata)),
        entry@.data == data@,
        entry@.header_bytes == encode_header(entry@.header),
{
    let mut header: TarHeader = TarHeader::new(name, DEFAULT_MODE, data.len() as u64);
    match metadata {
        Some(m) => {
            header.mode = m.mode;
            header.mtime = m.mtime;
            header.gid = m.gid;
            header.uid = m.uid;
            match m.uname {
                Some(uname) => {
                    header.uname = uname;
                },
                None => {},
            }
            match m.gname {
                Some(gname) => {
                    header.gname = gname;
                },
                None => {},
            }
        },
        None => {},
    }
    let header_bytes: [u8; 512] = header.to_bytes();
    TarEntry { header, data, header_bytes }
}

/// The bytes of the archive file `tarfile` that holds `entries`: their
/// archive, as a gzip stream where the name asks for one.
pub fn pack(tarfile: &str, entries: &[TarEntry]) -> (res: Result<Vec<u8>, GzipError>)
    ensures
        !is_gzip_name(tarfile@) ==> res is Ok,
        match res {
            Ok(bytes) => gzipped(tarfile@, archive_bytes(entry_views(entries@))) == Some(bytes@),
            Err(e) => e is Compress && gzipped(tarfile@, archive_bytes(entry_views(entries@)))
                is None,
        },
{
    gzip(tarfile, write_tar(entries))
}

/// The entries of the archive file `tarfile`, given its bytes.
pub fn list_entry(tarfile: &str, file_data: Vec<u8>) -> (res: Result<Vec<TarEntry>, GzipError>)
    ensures
        match res {
            Ok(entries) => ungzipped(tarfile@, file_data@) matches Some(bytes) && entry_views(
                entries@,
            ) == read_entries(bytes),
            Err(e) => e is Decompress && ungzipped(tarfile@, file_data@) is None,
        },
{
    match ungzip(tarfile, file_data) {
        Ok(tar_data) => Ok(read_tar(tar_data.as_slice())),
        Err(e) => Err(e),
    }
}

/// The headers of a list of entries, in their order.
pub fn into_headers(entries: Vec<TarEntry>) -> (headers: Vec<TarHeader>)
    ensures
        header_views(headers@) == headers_of(entry_views(entries@)),
{
    let ghost all = entry_views(entries@);
    let ghost given = entries@;
    let mut headers: Vec<TarHeader> = Vec::new();
    assert(header_views(headers@) =~= headers_of(all).take(0));
    for entry in it: entries
        invariant
            it.seq() == given,
            all == entry_views(given),
            header_views(headers@) == headers_of(all).take(it.index() as int),
    {
        let ghost done = header_views(headers@);
        assert(entry == given[it.index() as int]);
        assert(all[it.index() as int] == entry@);
        headers.push(entry.header);
        assert(header_views(headers@) =~= done.push(entry@.header));
        assert(headers_of(all).take(it.index() + 1) =~= headers_of(all).take(
            it.index() as int,
        ).push(entry@.header));
    }
    assert(headers_of(all).take(all.len() as int) =~= headers_of(all));
    headers
}

/// The headers of the archive file `tarfile`, given its bytes.
pub fn list(tarfile: &str, file_data: Vec<u8>) -> (res: Result<Vec<TarHeader>, GzipError>)
    ensures
        match res {
            Ok(headers) => ungzipped(tarfile@, file_data@) matches Some(bytes) && header_views(
                headers@,
            ) == headers_of(read_entries(bytes)),
            Err(e) => e is Decompress && ungzipped(tarfile@, file_data@) is None,
        },
{
    match list_entry(tarfile, file_data) {
        Ok(entries) => Ok(into_headers(entries)),
        Err(e) => Err(e),
    }
}

} // verus!
