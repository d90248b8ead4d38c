//! The entry container: a list of entries that is searched by name.
use vstd::prelude::*;
use vstd::string::StrSliceExecFns;
use vstd::string::StringExecFns;
use vstd::utf8::encode_utf8;
use crate::tar::archive::archive_bytes;
use crate::tar::archive::entry_views;
use crate::tar::archive::read_entries;
use crate::tar::archive::read_tar;
use crate::tar::archive::write_tar;
use crate::tar::archive::EntryView;
use crate::tar::archive::TarEntry;
use crate::tar::header::encode_header;
use crate::tar::header::new_header;
use crate::tar::header::HeaderView;
use crate::tar::header::TarHeader;
use crate::tar::layout::zeros;
use crate::tar::layout::BLOCK_SIZE;
use crate::tar::text::decode_payload_text;
use crate::tar::text::lossy_text;
use crate::tar::text::same_text;
use crate::tar::text::trim_end_nul;

verus! {

/// The mode of an entry that is made from a text.
pub const TEXT_ENTRY_MODE: u32 = 0o664;

/// A list of entries. Names need not be unique; a lookup by name finds the
/// first entry of that name.
#[derive(Debug)]
pub struct Tar {
    pub entries: Vec<TarEntry>,
    /// Whether a change to an entry also rewrites the header block that the
    /// entry carries. Writing the archive computes every block afresh and
    /// does not depend on this.
    pub use_header_parsing: bool,
}

/// A container as a plain value.
pub struct TarView {
    pub entries: Seq<EntryView>,
    pub use_header_parsing: bool,
}

impl View for Tar {
    type V = TarView;

    open spec fn view(&self) -> TarView {
        TarView {
            entries: entry_views(self.entries@),
            use_header_parsing: self.use_header_parsing,
        }
    }
}

/// Whether some entry has the name `name`.
pub open spec fn has_named(entries: Seq<EntryView>, name: Seq<char>) -> bool {
    exists|i: int| 0 <= i < entries.len() && (#[trigger] entries[i]).header.name == name
}

/// Whether the entry at `i` is the first that has the name `name`.
pub open spec fn is_first_named(entries: Seq<EntryView>, name: Seq<char>, i: int) -> bool {
    &&& 0 <= i < entries.len()
    &&& entries[i].header.name == name
    &&& forall|j: int| 0 <= j < i ==> (#[trigger] entries[j]).header.name != name
}

/// The entry that holds `content` under `name`: a regular file whose
/// payload is the text in UTF-8. It carries the block of its header where
/// `with_block` is set, and a block of NUL bytes where it is not.
pub open spec fn text_entry(name: Seq<char>, content: Seq<char>, with_block: bool) -> EntryView {
    let data = encode_utf8(content);
    let header = new_header(name, TEXT_ENTRY_MODE, data.len() as u64);
    EntryView {
        header,
        data,
        header_bytes: if with_block {
            encode_header(header)
        } else {
            zeros(BLOCK_SIZE as nat)
        },
    }
}

/// The entry `e` with `content` as its payload: payload and size are
/// replaced, the rest of the header stays. The block that the entry carries
/// is rewritten where `with_block` is set, and stays where it is not.
pub open spec fn with_text(e: EntryView, content: Seq<char>, with_block: bool) -> EntryView {
    let data = encode_utf8(content);
    let header = HeaderView { size: data.len() as u64, ..e.header };
    EntryView {
        header,
        data,
        header_bytes: if with_block {
            encode_header(header)
        } else {
            e.header_bytes
        },
    }
}

/// Whether `after` is `before` with `content` put under `name`: in place of
/// the payload of the first entry of that name where there is one, and as a
/// new entry at the end where there is none.
pub open spec fn is_upsert(
    before: Seq<EntryView>,
    after: Seq<EntryView>,
    name: Seq<char>,
    content: Seq<char>,
    with_block: bool,
) -> bool {
    &&& forall|i: int|
        is_first_named(before, name, i) ==> after == before.update(
            i,
            with_text(before[i], content, with_block),
        )
    &&& !has_named(before, name) ==> after == before.push(text_entry(name, content, with_block))
}

/// The text that a payload is read as: decoded as UTF-8, with replacement
/// characters for what is none, and without trailing NUL characters.
pub open spec fn payload_text(data: Seq<u8>) -> Seq<char> {
    trim_end_nul(lossy_text(data))
}

impl Tar {
    /// An empty container.
    pub fn new() -> (tar: Self)
        ensures
            tar@.entries == Seq::<EntryView>::empty(),
            !tar@.use_header_parsing,
    {
        let tar = Self { entries: Vec::new(), use_header_parsing: false };
        assert(tar@.entries =~= Seq::<EntryView>::empty());
        tar
    }

    /// The container of the entries of an archive.
    pub fn from_bytes(data: &[u8]) -> (tar: Self)
        ensures
            tar@.entries == read_entries(data@),
            !tar@.use_header_parsing,
    {
        let entries: Vec<TarEntry> = read_tar(data);
        Self { entries, use_header_parsing: false }
    }

    /// Adds an entry at the end.
    pub fn add_entry(&mut self, entry: TarEntry)
        ensures
            final(self)@.entries == old(self)@.entries.push(entry@),
            final(self)@.use_header_parsing == old(self)@.use_header_parsing,
    {
        self.entries.push(entry);
        assert(entry_views(self.entries@) =~= entry_views(old(self).entries@).push(entry@));
    }

    /// Adds an entry that holds `content` under `name` at the end, whether
    /// or not an entry of that name is there already.
    pub fn add_str_entry(&mut self, name: &str, content: &str)
        ensures
            final(self)@.entries == old(self)@.entries.push(
                text_entry(name@, content@, old(self)@.use_header_parsing),
            ),
            final(self)@.use_header_parsing == old(self)@.use_header_parsing,
    {
        let data: Vec<u8> = content.as_bytes_vec();
        let header: TarHeader = TarHeader::new(
            String::from_str(name),
            TEXT_ENTRY_MODE,
            data.len() as u64,
        );
        let mut header_bytes: [u8; 512] = [0u8; 512];
        if self.use_header_parsing {
            header_bytes = header.to_bytes();
        }
        assert(!self.use_header_parsing ==> header_bytes@ =~= zeros(BLOCK_SIZE as nat));
        let entry = TarEntry { header, data, header_bytes };
        self.add_entry(entry);
    }

    /// The index of the first entry that has the name `name`.
    fn position(&self, name: &str) -> (found: Option<usize>)
        ensures
            found matches Some(i) ==> is_first_named(self@.entries, name@, i as int),
            found is None ==> !has_named(self@.entries, name@),
    {
        let mut i: usize = 0;
        while i < self.entries.len()
            invariant
                i <= self.entries@.len(),
                forall|j: int|
                    0 <= j < i ==> (#[trigger] entry_views(self.entries@)[j]).header.name != name@,
            decreases self.entries@.len() - i,
        {
            if same_text(self.entries[i].header.name.as_str(), name) {
                return Some(i);
            }
            i += 1;
        }
        None
    }

    /// The first entry that has the name `name`.
    pub fn find_entry(&self, name: &str) -> (found: Option<&TarEntry>)
        ensures
            found matches Some(entry) ==> exists|i: int|
                is_first_named(self@.entries, name@, i) && *entry == #[trigger] self.entries@[i],
            found is None <==> !has_named(self@.entries, name@),
    {
        match self.position(name) {
            Some(i) => Some(&self.entries[i]),
            None => None,
        }
    }

    /// Puts `content` under `name`: into the first entry of that name where
    /// there is one, and into a new entry at the end where there is none.
    pub fn set_str(&mut self, name: &str, content: &str)
        ensures
            final(self)@.use_header_parsing == old(self)@.use_header_parsing,
            is_upsert(
                old(self)@.entries,
                final(self)@.entries,
                name@,
                content@,
                old(self)@.use_header_parsing,
            ),
    {
        match self.position(name) {
            Some(i) => {
                let rewrite: bool = self.use_header_parsing;
                let entry: &mut TarEntry = &mut self.entries[i];
                entry.data = content.as_bytes_vec();
                entry.header.size = entry.data.len() as u64;
                if rewrite {
                    entry.header_bytes = entry.header.to_bytes();
                }
                assert(entry_views(self.entries@) =~= entry_views(old(self).entries@).update(
                    i as int,
                    with_text(old(self)@.entries[i as int], content@, rewrite),
                ));
            },
            None => {
                self.add_str_entry(name, content);
            },
        }
    }

    /// The text under `name`: the payload of the first entry of that name,
    /// read as text.
    pub fn get_str(&self, name: &str) -> (found: Option<String>)
        ensures
            found matches Some(text) ==> exists|i: int|
                is_first_named(self@.entries, name@, i) && text@ == payload_text(
                    (#[trigger] self@.entries[i]).data,
                ),
            found is None <==> !has_named(self@.entries, name@),
    {
        match self.position(name) {
            Some(i) => Some(decode_payload_text(self.entries[i].data.as_slice())),
            None => None,
        }
    }

    /// The archive of the entries.
    pub fn to_bytes(&self) -> (bytes: Vec<u8>)
        ensures
            bytes@ == archive_bytes(self@.entries),
    {
        write_tar(self.entries.as_slice())
    }
}

} // verus!
