use crate::bytes::append;
use crate::bytes::copy_range;
use crate::bytes::take_array;
use crate::error::Error;
use crate::primitives::MAC_SIZE;
use crate::wire::get_be16;
use crate::wire::get_be32;
use crate::wire::put_be16;
use crate::wire::put_be32;
use crate::wire::spec_be16;
use crate::wire::spec_be32;
use crate::wire::spec_from_be16;
use crate::wire::spec_from_be32;
use vstd::prelude::*;

verus! {

/// Size of one entry on the wire: salt, KEK nonce, encrypted CEK, encrypted CEK nonce.
pub const ENTRY_SIZE: usize = 72;

/// Size of the encrypted verify block.
pub const VERIFY_BLOCK_SIZE: usize = 128;

/// Bytes before the first entry: the magic and the entry count.
pub const PREFIX_SIZE: usize = 6;

/// Bytes between the last entry and the metadata length: verify block and two tags.
pub const TRAILER_SIZE: usize = 192;

/// One password's wrapping of the content key.
#[derive(Debug)]
pub struct Entry {
    pub salt: [u8; 16],
    pub kek_nonce: [u8; 12],
    pub encrypted_cek: [u8; 32],
    pub encrypted_cek_nonce: [u8; 12],
}

/// The header of an envelope, each field as it stands on the wire.
#[derive(Debug)]
pub struct FileHeader {
    pub magic: [u8; 4],
    pub password_count: u16,
    pub entries: Vec<Entry>,
    pub encrypted_verify_block: Vec<u8>,
    pub verify_block_hmac: [u8; 32],
    pub file_hmac: [u8; 32],
    pub metadata_len: u32,
    pub metadata: Vec<u8>,
}

/// An entry as four byte strings.
pub struct EntryView {
    pub salt: Seq<u8>,
    pub kek_nonce: Seq<u8>,
    pub encrypted_cek: Seq<u8>,
    pub encrypted_cek_nonce: Seq<u8>,
}

/// A header as plain values.
pub struct HeaderView {
    pub magic: Seq<u8>,
    pub password_count: u16,
    pub entries: Seq<EntryView>,
    pub encrypted_verify_block: Seq<u8>,
    pub verify_block_hmac: Seq<u8>,
    pub file_hmac: Seq<u8>,
    pub metadata_len: u32,
    pub metadata: Seq<u8>,
}

/// An envelope taken apart: its header and the ciphertext body behind it.
pub struct EnvelopeView {
    pub header: HeaderView,
    pub body: Seq<u8>,
}

impl View for Entry {
    type V = EntryView;

    open spec fn view(&self) -> EntryView {
        EntryView {
            salt: self.salt@,
            kek_nonce: self.kek_nonce@,
            encrypted_cek: self.encrypted_cek@,
            encrypted_cek_nonce: self.encrypted_cek_nonce@,
        }
    }
}

impl View for FileHeader {
    type V = HeaderView;

    open spec fn view(&self) -> HeaderView {
        HeaderView {
            magic: self.magic@,
            password_count: self.password_count,
            entries: Seq::new(self.entries@.len(), |i: int| self.entries@[i]@),
            encrypted_verify_block: self.encrypted_verify_block@,
            verify_block_hmac: self.verify_block_hmac@,
            file_hmac: self.file_hmac@,
            metadata_len: self.metadata_len,
            metadata: self.metadata@,
        }
    }
}

impl EntryView {
    /// Each field has its wire length.
    pub open spec fn wf(self) -> bool {
        &&& self.salt.len() == 16
        &&& self.kek_nonce.len() == 12
        &&& self.encrypted_cek.len() == 32
        &&& self.encrypted_cek_nonce.len() == 12
    }
}

impl HeaderView {
    /// Field lengths without the magic's value: what a header needs to be read
    /// back as written.
    pub open spec fn sized(self) -> bool {
        &&& self.magic.len() == 4
        &&& self.entries.len() == self.password_count
        &&& forall|i: int| 0 <= i < self.entries.len() ==> (#[trigger] self.entries[i]).wf()
        &&& self.encrypted_verify_block.len() == VERIFY_BLOCK_SIZE
        &&& self.verify_block_hmac.len() == MAC_SIZE
        &&& self.file_hmac.len() == MAC_SIZE
        &&& self.metadata.len() == self.metadata_len
    }

    /// The header of a well-formed envelope: the magic is "WCRY", the counts and
    /// lengths agree with the fields.
    pub open spec fn wf(self) -> bool {
        &&& self.magic == spec_magic()
        &&& self.sized()
    }

    /// This header with other metadata.
    pub open spec fn with_metadata(self, metadata: Seq<u8>) -> HeaderView {
        HeaderView { metadata_len: metadata.len() as u32, metadata, ..self }
    }
}

impl FileHeader {
    /// See [`HeaderView::wf`].
    pub open spec fn wf(&self) -> bool {
        self@.wf()
    }
}

/// The four bytes "WCRY".
pub open spec fn spec_magic() -> Seq<u8> {
    seq![0x57u8, 0x43u8, 0x52u8, 0x59u8]
}

/// Length of a header with `count` entries, up to and including the file tag.
pub open spec fn spec_fixed_len(count: int) -> int {
    PREFIX_SIZE + ENTRY_SIZE * count + TRAILER_SIZE
}

/// The entry whose 72 bytes start at `at`.
pub open spec fn spec_entry_at(data: Seq<u8>, at: int) -> EntryView {
    EntryView {
        salt: data.subrange(at, at + 16),
        kek_nonce: data.subrange(at + 16, at + 28),
        encrypted_cek: data.subrange(at + 28, at + 60),
        encrypted_cek_nonce: data.subrange(at + 60, at + 72),
    }
}

/// The 72 bytes of an entry.
pub open spec fn spec_entry_bytes(e: EntryView) -> Seq<u8> {
    e.salt + e.kek_nonce + e.encrypted_cek + e.encrypted_cek_nonce
}

/// The bytes of an entry array, in order.
pub open spec fn spec_entries_bytes(entries: Seq<EntryView>) -> Seq<u8>
    decreases entries.len(),
{
    if entries.len() == 0 {
        Seq::<u8>::empty()
    } else {
        spec_entries_bytes(entries.drop_last()) + spec_entry_bytes(entries.last())
    }
}

/// The bytes of a header, field after field, the metadata length always present.
pub open spec fn spec_write_header(h: HeaderView) -> Seq<u8> {
    h.magic + spec_be16(h.password_count) + spec_entries_bytes(h.entries)
        + h.encrypted_verify_block + h.verify_block_hmac + h.file_hmac + spec_be32(h.metadata_len)
        + h.metadata
}

/// What an envelope's bytes say.
///
/// Fewer than four bytes behind the file tag are no metadata length: the
/// envelope then has no metadata, and those bytes are its body.
pub open spec fn spec_parse(data: Seq<u8>) -> Result<EnvelopeView, Error> {
    if data.len() < PREFIX_SIZE || data.subrange(0, 4) != spec_magic() {
        Err(Error::InvalidFormat)
    } else {
        let count = spec_from_be16(data.subrange(4, 6));
        let fixed = spec_fixed_len(count as int);
        if data.len() < fixed {
            Err(Error::InvalidFormat)
        } else {
            let base = HeaderView {
                magic: data.subrange(0, 4),
                password_count: count,
                entries: Seq::new(
                    count as nat,
                    |i: int| spec_entry_at(data, PREFIX_SIZE + ENTRY_SIZE * i),
                ),
                encrypted_verify_block: data.subrange(fixed - 192, fixed - 64),
                verify_block_hmac: data.subrange(fixed - 64, fixed - 32),
                file_hmac: data.subrange(fixed - 32, fixed),
                metadata_len: 0,
                metadata: Seq::<u8>::empty(),
            };
            if data.len() - fixed < 4 {
                Ok(EnvelopeView { header: base, body: data.subrange(fixed, data.len() as int) })
            } else {
                let len = spec_from_be32(data.subrange(fixed, fixed + 4));
                if data.len() - fixed - 4 < len {
                    Err(Error::InvalidFormat)
                } else {
                    Ok(
                        EnvelopeView {
                            header: HeaderView {
                                metadata_len: len,
                                metadata: data.subrange(fixed + 4, fixed + 4 + len),
                                ..base
                            },
                            body: data.subrange(fixed + 4 + len, data.len() as int),
                        },
                    )
                }
            }
        }
    }
}

/// The header that an envelope's bytes hold.
pub open spec fn spec_parse_header(data: Seq<u8>) -> Result<HeaderView, Error> {
    match spec_parse(data) {
        Ok(env) => Ok(env.header),
        Err(e) => Err(e),
    }
}

/// Whether the envelope carries a metadata length behind its file tag.
pub open spec fn spec_has_metadata_len(data: Seq<u8>) -> bool {
    data.len() >= PREFIX_SIZE && data.len() - spec_fixed_len(
        spec_from_be16(data.subrange(4, 6)) as int,
    ) >= 4
}

/// Reads the entry whose 72 bytes start at `at`.
pub fn read_entry(data: &[u8], at: usize) -> (e: Entry)
    requires
        at + ENTRY_SIZE <= data.len(),
    ensures
        e@ == spec_entry_at(data@, at as int),
{
    Entry {
        salt: take_array::<16>(data, at),
        kek_nonce: take_array::<12>(data, at + 16),
        encrypted_cek: take_array::<32>(data, at + 28),
        encrypted_cek_nonce: take_array::<12>(data, at + 60),
    }
}

/// Splits an envelope into its header and the offset at which its body starts.
pub fn parse_envelope(data: &[u8]) -> (r: Result<(FileHeader, usize), Error>)
    ensures
        match r {
            Ok((h, body_at)) => {
                &&& body_at <= data@.len()
                &&& spec_parse(data@) == Ok::<EnvelopeView, Error>(
                    EnvelopeView {
                        header: h@,
                        body: data@.subrange(body_at as int, data@.len() as int),
                    },
                )
                &&& h.wf()
            },
            Err(e) => spec_parse(data@) == Err::<EnvelopeView, Error>(e),
        },
{
    if data.len() < PREFIX_SIZE {
        return Err(Error::InvalidFormat);
    }
    let magic = take_array::<4>(data, 0);
    if !(magic[0] == 0x57 && magic[1] == 0x43 && magic[2] == 0x52 && magic[3] == 0x59) {
        assert(data@.subrange(0, 4) != spec_magic()) by {
            if data@.subrange(0, 4) == spec_magic() {
                assert(magic@[0] == spec_magic()[0]);
                assert(magic@[1] == spec_magic()[1]);
                assert(magic@[2] == spec_magic()[2]);
                assert(magic@[3] == spec_magic()[3]);
            }
        }
        return Err(Error::InvalidFormat);
    }
    assert(data@.subrange(0, 4) =~= spec_magic());
    let count = get_be16(data, 4);
    let fixed: usize = PREFIX_SIZE + ENTRY_SIZE * (count as usize) + TRAILER_SIZE;
    if data.len() < fixed {
        return Err(Error::InvalidFormat);
    }
    let mut entries: Vec<Entry> = Vec::new();
    let mut i: usize = 0;
    while i < count as usize
        invariant
            i <= count,
            fixed == PREFIX_SIZE + ENTRY_SIZE * count + TRAILER_SIZE,
            fixed <= data.len(),
            entries@.len() == i,
            forall|k: int|
                0 <= k < i ==> (#[trigger] entries@[k])@ == spec_entry_at(
                    data@,
                    PREFIX_SIZE + ENTRY_SIZE * k,
                ),
        decreases count - i,
    {
        let e = read_entry(data, PREFIX_SIZE + ENTRY_SIZE * i);
        entries.push(e);
        i += 1;
    }
    let encrypted_verify_block = copy_range(data, fixed - 192, fixed - 64);
    let verify_block_hmac = take_array::<32>(data, fixed - 64);
    let file_hmac = take_array::<32>(data, fixed - 32);
    let mut metadata_len: u32 = 0;
    let mut metadata: Vec<u8> = Vec::new();
    let mut body_at: usize = fixed;
    if data.len() - fixed >= 4 {
        metadata_len = get_be32(data, fixed);
        if data.len() - fixed - 4 < metadata_len as usize {
            return Err(Error::InvalidFormat);
        }
        body_at = fixed + 4 + metadata_len as usize;
        metadata = copy_range(data, fixed + 4, body_at);
    }
    let h = FileHeader {
        magic,
        password_count: count,
        entries,
        encrypted_verify_block,
        verify_block_hmac,
        file_hmac,
        metadata_len,
        metadata,
    };
    proof {
        let env = spec_parse(data@)->Ok_0;
        assert(h@.entries =~= env.header.entries);
        assert(h@.metadata =~= env.header.metadata);
        assert(h@ == env.header);
    }
    Ok((h, body_at))
}

/// Reads the header of an envelope.
///
/// Nothing is authenticated here: the fields come back as they stand in `data`.
pub fn parse_header(data: &[u8]) -> (r: Result<FileHeader, Error>)
    ensures
        match r {
            Ok(h) => spec_parse_header(data@) == Ok::<HeaderView, Error>(h@) && h.wf(),
            Err(e) => spec_parse_header(data@) == Err::<HeaderView, Error>(e),
        },
{
    match parse_envelope(data) {
        Ok((h, _)) => Ok(h),
        Err(e) => Err(e),
    }
}

/// Appends the 72 bytes of an entry to `out`.
pub fn write_entry(e: &Entry, out: &mut Vec<u8>)
    ensures
        final(out)@ == old(out)@ + spec_entry_bytes(e@),
{
    append(out, &e.salt);
    append(out, &e.kek_nonce);
    append(out, &e.encrypted_cek);
    append(out, &e.encrypted_cek_nonce);
    assert(out@ =~= old(out)@ + spec_entry_bytes(e@));
}

/// Appends a header to `out`, each field as it stands in `h`.
pub fn write_header(h: &FileHeader, out: &mut Vec<u8>)
    ensures
        final(out)@ == old(out)@ + spec_write_header(h@),
{
    let ghost before = out@;
    append(out, &h.magic);
    put_be16(out, h.password_count);
    let ghost start = out@;
    let n = h.entries.len();
    let mut i: usize = 0;
    while i < n
        invariant
            i <= n,
            n == h.entries@.len(),
            out@ == start + spec_entries_bytes(h@.entries.take(i as int)),
        decreases n - i,
    {
        write_entry(&h.entries[i], out);
        proof {
            let next = h@.entries.take(i + 1);
            assert(next.drop_last() =~= h@.entries.take(i as int));
            assert(next.last() == h.entries@[i as int]@);
            assert(out@ =~= start + spec_entries_bytes(next));
        }
        i += 1;
    }
    assert(h@.entries.take(n as int) =~= h@.entries);
    append(out, h.encrypted_verify_block.as_slice());
    append(out, &h.verify_block_hmac);
    append(out, &h.file_hmac);
    put_be32(out, h.metadata_len);
    append(out, h.metadata.as_slice());
    assert(out@ =~= before + spec_write_header(h@));
}

} // verus!
