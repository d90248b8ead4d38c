//! Archives: a run of records and a terminator.
//!
//! A record is a header block, the payload that the header announces, and
//! NUL bytes up to the next block boundary. Two blocks of NUL bytes end the
//! archive.
use vstd::prelude::*;
use crate::tar::header::create_tar_header;
use crate::tar::header::decode_header;
use crate::tar::header::encode_header;
use crate::tar::header::parse_tar_header;
use crate::tar::header::HeaderView;
use crate::tar::header::TarHeader;
use crate::tar::layout::is_regular;
use crate::tar::layout::padding;
use crate::tar::layout::zeros;
use crate::tar::layout::BLOCK_SIZE;
use crate::tar::layout::TYPE_REGULAR;
use crate::tar::layout::TYPE_REGULAR_OLD;

verus! {

/// One member of an archive: its header, its payload, and the header block
/// that it was read from or last written as.
#[derive(Debug)]
pub struct TarEntry {
    pub header: TarHeader,
    pub data: Vec<u8>,
    pub header_bytes: [u8; 512],
}

/// An entry as a plain value.
pub struct EntryView {
    pub header: HeaderView,
    pub data: Seq<u8>,
    pub header_bytes: Seq<u8>,
}

impl View for TarEntry {
    type V = EntryView;

    open spec fn view(&self) -> EntryView {
        EntryView { header: self.header@, data: self.data@, header_bytes: self.header_bytes@ }
    }
}

/// The entries of a list as plain values.
pub open spec fn entry_views(entries: Seq<TarEntry>) -> Seq<EntryView> {
    entries.map_values(|e: TarEntry| e@)
}

/// Whether every byte of `block` is NUL.
pub open spec fn is_zero_block(block: Seq<u8>) -> bool {
    forall|i: int| 0 <= i < block.len() ==> block[i] == 0
}

/// The record of an entry: the block of its header, freshly computed, its
/// payload as it stands, and the padding that the payload needs. The size
/// that the header holds plays no part in what follows the block.
pub open spec fn record_bytes(e: EntryView) -> Seq<u8> {
    encode_header(e.header) + e.data + zeros(padding(e.data.len()))
}

/// The archive of `entries`: their records in order, then two blocks of NUL
/// bytes.
pub open spec fn archive_bytes(entries: Seq<EntryView>) -> Seq<u8>
    decreases entries.len(),
{
    if entries.len() == 0 {
        zeros(2 * BLOCK_SIZE as nat)
    } else {
        record_bytes(entries[0]) + archive_bytes(entries.drop_first())
    }
}

/// The header that the first block of `data` is read as.
pub open spec fn first_header(data: Seq<u8>) -> HeaderView {
    decode_header(data.take(BLOCK_SIZE as int))
}

/// Where the payload of the first record of `data` ends.
pub open spec fn first_payload_end(data: Seq<u8>) -> int {
    BLOCK_SIZE + first_header(data).size
}

/// Where the record after the first one starts in `data`.
pub open spec fn first_record_end(data: Seq<u8>) -> int {
    first_payload_end(data) + padding(first_header(data).size as nat)
}

/// The entry that the first record of `data` is read as.
pub open spec fn first_entry(data: Seq<u8>) -> EntryView {
    EntryView {
        header: first_header(data),
        data: data.subrange(BLOCK_SIZE as int, first_payload_end(data)),
        header_bytes: data.take(BLOCK_SIZE as int),
    }
}

/// Whether `data` starts with a record: a block that is not all NUL, and
/// whose header announces no more payload than `data` has behind it.
pub open spec fn starts_with_record(data: Seq<u8>) -> bool {
    &&& data.len() >= BLOCK_SIZE
    &&& !is_zero_block(data.take(BLOCK_SIZE as int))
    &&& first_payload_end(data) <= data.len()
}

/// The entries that `data` is read as.
///
/// Reading stops at the end of the input, at a block of NUL bytes, and at a
/// header that announces more payload than the input has left; what was
/// read up to there stands. An entry that is no regular file is passed
/// over: its record is skipped and it is not among the entries.
pub open spec fn read_entries(data: Seq<u8>) -> Seq<EntryView>
    decreases data.len(),
{
    if !starts_with_record(data) {
        Seq::empty()
    } else {
        let rest = if first_record_end(data) <= data.len() {
            read_entries(data.skip(first_record_end(data)))
        } else {
            Seq::empty()
        };
        if is_regular(first_header(data).typeflag) {
            seq![first_entry(data)] + rest
        } else {
            rest
        }
    }
}

/// Only regular files are read: whatever the bytes, every entry that is
/// read from them has the type flag of a regular file.
pub proof fn lemma_read_entries_regular(data: Seq<u8>)
    ensures
        forall|k: int|
            0 <= k < read_entries(data).len() ==> is_regular(
                (#[trigger] read_entries(data)[k]).header.typeflag,
            ),
    decreases data.len(),
{
    if starts_with_record(data) && first_record_end(data) <= data.len() {
        let rest = read_entries(data.skip(first_record_end(data)));
        lemma_read_entries_regular(data.skip(first_record_end(data)));
        assert forall|k: int| 0 <= k < read_entries(data).len() implies is_regular(
            (#[trigger] read_entries(data)[k]).header.typeflag,
        ) by {
            if is_regular(first_header(data).typeflag) {
                if k > 0 {
                    assert(read_entries(data)[k] == rest[k - 1]);
                }
            } else {
                assert(read_entries(data)[k] == rest[k]);
            }
        }
    }
}

/// Whether every byte of `data` is NUL.
pub fn is_empty_block(data: &[u8]) -> (empty: bool)
    ensures
        empty == is_zero_block(data@),
{
    let mut i: usize = 0;
    while i < data.len()
        invariant
            i <= data@.len(),
            forall|j: int| 0 <= j < i ==> data@[j] == 0,
        decreases data@.len() - i,
    {
        if data[i] != 0 {
            return false;
        }
        i += 1;
    }
    true
}

/// A copy of a block.
fn copy_block(data: &[u8]) -> (block: [u8; 512])
    requires
        data@.len() == BLOCK_SIZE,
    ensures
        block@ == data@,
{
    let mut block: [u8; 512] = [0u8; 512];
    let mut i: usize = 0;
    while i < BLOCK_SIZE
        invariant
            i <= BLOCK_SIZE,
            data@.len() == BLOCK_SIZE,
            forall|j: int| 0 <= j < i ==> block@[j] == data@[j],
        decreases BLOCK_SIZE - i,
    {
        block[i] = data[i];
        i += 1;
    }
    assert(block@ =~= data@);
    block
}

/// Reads the first record of `data` as an entry, whatever its type flag.
/// Gives nothing where the header announces more payload than `data` holds;
/// the payload is copied only once that is known.
fn read_record(data: &[u8]) -> (record: Option<TarEntry>)
    requires
        data@.len() >= BLOCK_SIZE,
    ensures
        record is Some <==> first_payload_end(data@) <= data@.len(),
        record matches Some(entry) ==> entry@ == first_entry(data@),
{
    let header_data: &[u8] = &data[0..BLOCK_SIZE];
    assert(header_data@ =~= data@.take(BLOCK_SIZE as int));
    let header: TarHeader = parse_tar_header(header_data);
    if header.size > (data.len() - BLOCK_SIZE) as u64 {
        return None;
    }
    let data_end: usize = BLOCK_SIZE + header.size as usize;
    let mut entry_data: Vec<u8> = Vec::new();
    entry_data.extend_from_slice(&data[BLOCK_SIZE..data_end]);
    assert(entry_data@ =~= data@.subrange(BLOCK_SIZE as int, data_end as int));
    let header_bytes: [u8; 512] = copy_block(header_data);
    Some(TarEntry { header, data: entry_data, header_bytes })
}

/// Reads the entries of an archive.
pub fn read_tar(data: &[u8]) -> (entries: Vec<TarEntry>)
    ensures
        entry_views(entries@) == read_entries(data@),
        forall|k: int|
            0 <= k < entries@.len() ==> is_regular((#[trigger] entries@[k]).header.typeflag),
{
    let mut entries: Vec<TarEntry> = Vec::new();
    let len: usize = data.len();
    let mut offset: usize = 0;
    assert(data@.skip(0) =~= data@);
    assert(entry_views(entries@) + read_entries(data@) =~= read_entries(data@));
    while len - offset >= BLOCK_SIZE
        invariant_except_break
            read_entries(data@) == entry_views(entries@) + read_entries(data@.skip(offset as int)),
        invariant
            offset <= len == data@.len(),
        ensures
            read_entries(data@) == entry_views(entries@),
        decreases len - offset,
    {
        let rest: &[u8] = &data[offset..len];
        assert(rest@ =~= data@.skip(offset as int));
        let ghost before = entry_views(entries@);
        if is_empty_block(&rest[0..BLOCK_SIZE]) {
            assert(rest@.subrange(0, BLOCK_SIZE as int) =~= rest@.take(BLOCK_SIZE as int));
            assert(before + Seq::<EntryView>::empty() =~= before);
            break;
        }
        assert(rest@.subrange(0, BLOCK_SIZE as int) =~= rest@.take(BLOCK_SIZE as int));
        let entry: TarEntry = match read_record(rest) {
            Some(entry) => entry,
            None => {
                assert(before + Seq::<EntryView>::empty() =~= before);
                break;
            },
        };
        let size: usize = entry.data.len();
        let typeflag: u8 = entry.header.typeflag;
        if typeflag == TYPE_REGULAR || typeflag == TYPE_REGULAR_OLD {
            let ghost view = entry@;
            entries.push(entry);
            assert(entry_views(entries@) =~= before + seq![view]);
        }
        let ghost kept = entry_views(entries@);
        let pad: usize = if size % BLOCK_SIZE == 0 {
            0
        } else {
            BLOCK_SIZE - size % BLOCK_SIZE
        };
        assert(pad == padding(size as nat));
        if pad > len - offset - BLOCK_SIZE - size {
            assert(kept + Seq::<EntryView>::empty() =~= kept);
            break;
        }
        let ghost step = BLOCK_SIZE + size + pad;
        offset = offset + BLOCK_SIZE + size + pad;
        assert(rest@.skip(step) =~= data@.skip(offset as int));
        let ghost first = seq![first_entry(rest@)];
        let ghost later = read_entries(rest@.skip(step));
        assert((before + first) + later =~= before + (first + later));
    }
    assert(entry_views(entries@) + Seq::<EntryView>::empty() =~= entry_views(entries@));
    proof {
        lemma_read_entries_regular(data@);
        assert forall|k: int| 0 <= k < entries@.len() implies is_regular(
            (#[trigger] entries@[k]).header.typeflag,
        ) by {
            assert(entry_views(entries@)[k] == entries@[k]@);
        }
    }
    entries
}

/// Writes the archive of `entries`.
pub fn write_tar(entries: &[TarEntry]) -> (tar_data: Vec<u8>)
    ensures
        tar_data@ == archive_bytes(entry_views(entries@)),
{
    let mut tar_data: Vec<u8> = Vec::new();
    let ghost all = entry_views(entries@);
    let mut i: usize = 0;
    assert(all.skip(0) =~= all);
    assert(tar_data@ + archive_bytes(all) =~= archive_bytes(all));
    while i < entries.len()
        invariant
            i <= entries@.len(),
            all == entry_views(entries@),
            tar_data@ + archive_bytes(all.skip(i as int)) == archive_bytes(all),
        decreases entries@.len() - i,
    {
        let entry: &TarEntry = &entries[i];
        let ghost before = tar_data@;
        assert(all.skip(i as int)[0] == entry@);
        assert(all.skip(i as int).drop_first() =~= all.skip(i + 1));
        let header_bytes: [u8; 512] = create_tar_header(&entry.header);
        tar_data.extend_from_slice(header_bytes.as_slice());
        tar_data.extend_from_slice(entry.data.as_slice());
        let pad: usize = (BLOCK_SIZE - entry.data.len() % BLOCK_SIZE) % BLOCK_SIZE;
        let fill: Vec<u8> = vec![0u8; pad];
        tar_data.extend_from_slice(fill.as_slice());
        assert(fill@ =~= zeros(padding(entry.data@.len())));
        assert(tar_data@ =~= before + record_bytes(entry@));
        let ghost record = record_bytes(entry@);
        let ghost later = archive_bytes(all.skip(i + 1));
        assert((before + record) + later =~= before + (record + later));
        i += 1;
    }
    let end: [u8; 1024] = [0u8; 1024];
    tar_data.extend_from_slice(end.as_slice());
    assert(tar_data@ =~= archive_bytes(all));
    tar_data
}

} // verus!
