use crate::error::Error;
use crate::header::EntryView;
use crate::header::EnvelopeView;
use crate::header::HeaderView;
use crate::header::spec_entries_bytes;
use crate::header::spec_entry_at;
use crate::header::spec_entry_bytes;
use crate::header::spec_fixed_len;
use crate::header::spec_has_metadata_len;
use crate::header::spec_parse;
use crate::header::spec_write_header;
use crate::wire::lemma_be16_unique;
use crate::wire::lemma_be32_unique;
use crate::wire::lemma_be_roundtrip;
use crate::wire::spec_be16;
use crate::wire::spec_be32;
use vstd::prelude::*;

verus! {

/// Whether every entry of an array has its wire lengths.
pub open spec fn spec_entries_wf(entries: Seq<EntryView>) -> bool {
    forall|i: int| 0 <= i < entries.len() ==> (#[trigger] entries[i]).wf()
}

/// An array of `n` entries takes `72 * n` bytes.
pub proof fn lemma_entries_bytes_len(entries: Seq<EntryView>)
    requires
        spec_entries_wf(entries),
    ensures
        spec_entries_bytes(entries).len() == 72 * entries.len(),
    decreases entries.len(),
{
    if entries.len() > 0 {
        let front = entries.drop_last();
        assert forall|i: int| 0 <= i < front.len() implies (#[trigger] front[i]).wf() by {
            assert(front[i] == entries[i]);
        }
        lemma_entries_bytes_len(front);
        assert(entries.last() == entries[entries.len() - 1]);
    }
}

/// Entry `i` stands at offset `72 * i` of the array's bytes.
pub proof fn lemma_entries_bytes_at(entries: Seq<EntryView>, i: int)
    requires
        spec_entries_wf(entries),
        0 <= i < entries.len(),
    ensures
        spec_entries_bytes(entries).subrange(72 * i, 72 * i + 72) == spec_entry_bytes(entries[i]),
    decreases entries.len(),
{
    let front = entries.drop_last();
    assert forall|k: int| 0 <= k < front.len() implies (#[trigger] front[k]).wf() by {
        assert(front[k] == entries[k]);
    }
    lemma_entries_bytes_len(front);
    assert(entries.last() == entries[entries.len() - 1]);
    let whole = spec_entries_bytes(entries);
    if i == entries.len() - 1 {
        assert(whole.subrange(72 * i, 72 * i + 72) =~= spec_entry_bytes(entries[i]));
    } else {
        lemma_entries_bytes_at(front, i);
        assert(front[i] == entries[i]);
        assert(whole.subrange(72 * i, 72 * i + 72) =~= spec_entries_bytes(front).subrange(
            72 * i,
            72 * i + 72,
        ));
    }
}

/// The 72 bytes of a well-formed entry read back as that entry.
pub proof fn lemma_entry_at_of_bytes(data: Seq<u8>, at: int, e: EntryView)
    requires
        e.wf(),
        0 <= at,
        at + 72 <= data.len(),
        data.subrange(at, at + 72) == spec_entry_bytes(e),
    ensures
        spec_entry_at(data, at) == e,
{
    let chunk = data.subrange(at, at + 72);
    assert(data.subrange(at, at + 16) =~= chunk.subrange(0, 16));
    assert(data.subrange(at + 16, at + 28) =~= chunk.subrange(16, 28));
    assert(data.subrange(at + 28, at + 60) =~= chunk.subrange(28, 60));
    assert(data.subrange(at + 60, at + 72) =~= chunk.subrange(60, 72));
    assert(chunk.subrange(0, 16) =~= e.salt);
    assert(chunk.subrange(16, 28) =~= e.kek_nonce);
    assert(chunk.subrange(28, 60) =~= e.encrypted_cek);
    assert(chunk.subrange(60, 72) =~= e.encrypted_cek_nonce);
}

/// A written header has the length that its entry count and metadata give.
pub proof fn lemma_write_header_len(h: HeaderView)
    requires
        h.sized(),
    ensures
        spec_write_header(h).len() == spec_fixed_len(h.password_count as int) + 4
            + h.metadata_len,
{
    lemma_entries_bytes_len(h.entries);
    lemma_be_roundtrip(h.password_count, h.metadata_len);
}

/// Reading undoes writing: a well-formed header, written with any body behind
/// it, parses to that header and that body.
pub proof fn lemma_parse_of_written(h: HeaderView, body: Seq<u8>)
    requires
        h.wf(),
    ensures
        spec_parse(spec_write_header(h) + body) == Ok::<EnvelopeView, Error>(
            EnvelopeView { header: h, body },
        ),
{
    let n = h.password_count as int;
    let es = spec_entries_bytes(h.entries);
    let data = spec_write_header(h) + body;
    let fixed = spec_fixed_len(n);
    lemma_entries_bytes_len(h.entries);
    lemma_be_roundtrip(h.password_count, h.metadata_len);
    lemma_write_header_len(h);
    assert(data.subrange(0, 4) =~= h.magic);
    assert(data.subrange(4, 6) =~= spec_be16(h.password_count));
    assert(data.subrange(6, 6 + 72 * n) =~= es);
    assert(data.subrange(fixed - 192, fixed - 64) =~= h.encrypted_verify_block);
    assert(data.subrange(fixed - 64, fixed - 32) =~= h.verify_block_hmac);
    assert(data.subrange(fixed - 32, fixed) =~= h.file_hmac);
    assert(data.subrange(fixed, fixed + 4) =~= spec_be32(h.metadata_len));
    assert(data.subrange(fixed + 4, fixed + 4 + h.metadata_len) =~= h.metadata);
    assert(data.subrange(fixed + 4 + h.metadata_len, data.len() as int) =~= body);
    let parsed = Seq::new(n as nat, |i: int| spec_entry_at(data, 6 + 72 * i));
    assert forall|i: int| 0 <= i < n implies parsed[i] == h.entries[i] by {
        lemma_entries_bytes_at(h.entries, i);
        assert(data.subrange(6 + 72 * i, 6 + 72 * i + 72) =~= es.subrange(72 * i, 72 * i + 72));
        lemma_entry_at_of_bytes(data, 6 + 72 * i, h.entries[i]);
    }
    assert(parsed =~= h.entries);
}

/// What parses has a well-formed header.
pub proof fn lemma_parsed_wf(data: Seq<u8>)
    requires
        spec_parse(data) is Ok,
    ensures
        spec_parse(data)->Ok_0.header.wf(),
{
    let h = spec_parse(data)->Ok_0.header;
    assert forall|i: int| 0 <= i < h.entries.len() implies (#[trigger] h.entries[i]).wf() by {}
}

/// Writing undoes reading, where the envelope carries its metadata length: the
/// parsed header, written back in front of the parsed body, is the envelope.
pub proof fn lemma_written_of_parsed(data: Seq<u8>)
    requires
        spec_parse(data) is Ok,
        spec_has_metadata_len(data),
    ensures
        spec_write_header(spec_parse(data)->Ok_0.header) + spec_parse(data)->Ok_0.body == data,
{
    let env = spec_parse(data)->Ok_0;
    let h = env.header;
    let n = h.password_count as int;
    let fixed = spec_fixed_len(n);
    lemma_parsed_wf(data);
    lemma_entries_bytes_len(h.entries);
    lemma_be_roundtrip(h.password_count, h.metadata_len);
    lemma_be16_unique(data.subrange(4, 6));
    lemma_be32_unique(data.subrange(fixed, fixed + 4));
    let es = spec_entries_bytes(h.entries);
    assert(es =~= data.subrange(6, 6 + 72 * n)) by {
        assert forall|k: int| 0 <= k < 72 * n implies es[k] == data[6 + k] by {
            let i = k / 72;
            lemma_entries_bytes_at(h.entries, i);
            let chunk = es.subrange(72 * i, 72 * i + 72);
            assert(chunk[k - 72 * i] == es[k]);
            let e = h.entries[i];
            assert(e == spec_entry_at(data, 6 + 72 * i));
            let r = k - 72 * i;
            if r < 16 {
                assert(spec_entry_bytes(e)[r] == e.salt[r]);
            } else if r < 28 {
                assert(spec_entry_bytes(e)[r] == e.kek_nonce[r - 16]);
            } else if r < 60 {
                assert(spec_entry_bytes(e)[r] == e.encrypted_cek[r - 28]);
            } else {
                assert(spec_entry_bytes(e)[r] == e.encrypted_cek_nonce[r - 60]);
            }
        }
    }
    assert(spec_write_header(h) + env.body =~= data);
}

/// Offset at which the body of a parsed envelope starts.
pub open spec fn spec_body_at(data: Seq<u8>) -> int {
    data.len() - spec_parse(data)->Ok_0.body.len()
}

/// A byte changed in the body changes that byte of the body and nothing that
/// the header says.
pub proof fn lemma_body_edit_parses(data: Seq<u8>, k: int, b: u8)
    requires
        spec_parse(data) is Ok,
        spec_body_at(data) <= k < data.len(),
    ensures
        spec_parse(data.update(k, b)) == Ok::<EnvelopeView, Error>(
            EnvelopeView {
                header: spec_parse(data)->Ok_0.header,
                body: spec_parse(data)->Ok_0.body.update(k - spec_body_at(data), b),
            },
        ),
{
    let env = spec_parse(data)->Ok_0;
    let other = data.update(k, b);
    let n = env.header.password_count as int;
    let fixed = spec_fixed_len(n);
    assert(other.subrange(0, 4) =~= data.subrange(0, 4));
    assert(other.subrange(4, 6) =~= data.subrange(4, 6));
    assert(other.subrange(fixed - 192, fixed - 64) =~= data.subrange(fixed - 192, fixed - 64));
    assert(other.subrange(fixed - 64, fixed - 32) =~= data.subrange(fixed - 64, fixed - 32));
    assert(other.subrange(fixed - 32, fixed) =~= data.subrange(fixed - 32, fixed));
    let mine = Seq::new(n as nat, |i: int| spec_entry_at(data, 6 + 72 * i));
    let theirs = Seq::new(n as nat, |i: int| spec_entry_at(other, 6 + 72 * i));
    assert forall|i: int| 0 <= i < n implies mine[i] == theirs[i] by {
        let at = 6 + 72 * i;
        assert(other.subrange(at, at + 16) =~= data.subrange(at, at + 16));
        assert(other.subrange(at + 16, at + 28) =~= data.subrange(at + 16, at + 28));
        assert(other.subrange(at + 28, at + 60) =~= data.subrange(at + 28, at + 60));
        assert(other.subrange(at + 60, at + 72) =~= data.subrange(at + 60, at + 72));
    }
    assert(mine =~= theirs);
    if data.len() - fixed < 4 {
        assert(other.subrange(fixed, other.len() as int) =~= env.body.update(k - fixed, b));
    } else {
        let len = env.header.metadata_len as int;
        assert(other.subrange(fixed, fixed + 4) =~= data.subrange(fixed, fixed + 4));
        assert(other.subrange(fixed + 4, fixed + 4 + len) =~= data.subrange(
            fixed + 4,
            fixed + 4 + len,
        ));
        assert(other.subrange(fixed + 4 + len, other.len() as int) =~= env.body.update(
            k - (fixed + 4 + len),
            b,
        ));
    }
}

/// A byte changed in the encrypted verify block changes that byte of the block
/// and nothing else that the envelope says.
pub proof fn lemma_verify_block_edit_parses(data: Seq<u8>, k: int, b: u8)
    requires
        spec_parse(data) is Ok,
        0 <= k - (spec_fixed_len(spec_parse(data)->Ok_0.header.password_count as int) - 192)
            < 128,
    ensures
        spec_parse(data.update(k, b)) == Ok::<EnvelopeView, Error>(
            EnvelopeView {
                header: HeaderView {
                    encrypted_verify_block: spec_parse(
                        data,
                    )->Ok_0.header.encrypted_verify_block.update(
                        k - (spec_fixed_len(spec_parse(data)->Ok_0.header.password_count as int)
                            - 192),
                        b,
                    ),
                    ..spec_parse(data)->Ok_0.header
                },
                body: spec_parse(data)->Ok_0.body,
            },
        ),
{
    let env = spec_parse(data)->Ok_0;
    let other = data.update(k, b);
    let n = env.header.password_count as int;
    let fixed = spec_fixed_len(n);
    assert(other.subrange(0, 4) =~= data.subrange(0, 4));
    assert(other.subrange(4, 6) =~= data.subrange(4, 6));
    assert(other.subrange(fixed - 192, fixed - 64) =~= data.subrange(
        fixed - 192,
        fixed - 64,
    ).update(k - (fixed - 192), b));
    assert(other.subrange(fixed - 64, fixed - 32) =~= data.subrange(fixed - 64, fixed - 32));
    assert(other.subrange(fixed - 32, fixed) =~= data.subrange(fixed - 32, fixed));
    let mine = Seq::new(n as nat, |i: int| spec_entry_at(data, 6 + 72 * i));
    let theirs = Seq::new(n as nat, |i: int| spec_entry_at(other, 6 + 72 * i));
    assert forall|i: int| 0 <= i < n implies mine[i] == theirs[i] by {
        let at = 6 + 72 * i;
        assert(other.subrange(at, at + 16) =~= data.subrange(at, at + 16));
        assert(other.subrange(at + 16, at + 28) =~= data.subrange(at + 16, at + 28));
        assert(other.subrange(at + 28, at + 60) =~= data.subrange(at + 28, at + 60));
        assert(other.subrange(at + 60, at + 72) =~= data.subrange(at + 60, at + 72));
    }
    assert(mine =~= theirs);
    if data.len() - fixed < 4 {
        assert(other.subrange(fixed, other.len() as int) =~= env.body);
    } else {
        let len = env.header.metadata_len as int;
        assert(other.subrange(fixed, fixed + 4) =~= data.subrange(fixed, fixed + 4));
        assert(other.subrange(fixed + 4, fixed + 4 + len) =~= data.subrange(
            fixed + 4,
            fixed + 4 + len,
        ));
        assert(other.subrange(fixed + 4 + len, other.len() as int) =~= env.body);
    }
}

} // verus!
