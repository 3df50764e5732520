use crate::bytes::append;
use crate::error::Error;
use crate::header::EnvelopeView;
use crate::header::parse_envelope;
use crate::header::spec_has_metadata_len;
use crate::header::spec_parse;
use crate::header::spec_write_header;
use crate::header::write_header;
use crate::layout::lemma_parse_of_written;
use crate::layout::lemma_parsed_wf;
use crate::layout::lemma_written_of_parsed;
use vstd::prelude::*;
use vstd::slice::slice_subrange;

verus! {

/// The longest metadata blob that the length field can announce.
pub const MAX_METADATA_LEN: usize = 0xFFFF_FFFF;

/// The envelope `data` with its metadata replaced: every other header field and
/// the body as they were, the metadata length always written.
pub open spec fn spec_update_metadata(data: Seq<u8>, metadata: Seq<u8>) -> Result<Seq<u8>, Error> {
    match spec_parse(data) {
        Err(e) => Err(e),
        Ok(env) => if metadata.len() > MAX_METADATA_LEN {
            Err(Error::BadArgument)
        } else {
            Ok(spec_write_header(env.header.with_metadata(metadata)) + env.body)
        },
    }
}

/// Replaces the metadata of an envelope and returns the new envelope.
///
/// No cryptographic field is touched and the body is copied as it is. Fails with
/// `InvalidFormat` where `data` is no envelope, and with `BadArgument` where the
/// new metadata is too long for the length field.
pub fn update_metadata(data: &[u8], new_metadata: Vec<u8>) -> (r: Result<Vec<u8>, Error>)
    ensures
        match r {
            Ok(out) => spec_update_metadata(data@, new_metadata@) == Ok::<Seq<u8>, Error>(out@),
            Err(e) => spec_update_metadata(data@, new_metadata@) == Err::<Seq<u8>, Error>(e),
        },
{
    let (mut h, body_at) = match parse_envelope(data) {
        Ok(parts) => parts,
        Err(e) => {
            return Err(e);
        },
    };
    if new_metadata.len() > MAX_METADATA_LEN {
        return Err(Error::BadArgument);
    }
    let ghost before = h@;
    h.metadata_len = new_metadata.len() as u32;
    h.metadata = new_metadata;
    assert(h@.entries =~= before.entries);
    assert(h@ == before.with_metadata(new_metadata@));
    let mut out: Vec<u8> = Vec::new();
    write_header(&h, &mut out);
    append(&mut out, slice_subrange(data, body_at, data.len()));
    assert(out@ =~= spec_write_header(h@) + data@.subrange(body_at as int, data@.len() as int));
    Ok(out)
}

/// After an update the envelope parses to the old header with the new metadata,
/// and to the old body: no other field moves.
pub proof fn lemma_update_metadata_parses(data: Seq<u8>, metadata: Seq<u8>)
    requires
        spec_update_metadata(data, metadata) is Ok,
    ensures
        spec_parse(spec_update_metadata(data, metadata)->Ok_0) == Ok::<EnvelopeView, Error>(
            EnvelopeView {
                header: spec_parse(data)->Ok_0.header.with_metadata(metadata),
                body: spec_parse(data)->Ok_0.body,
            },
        ),
{
    let env = spec_parse(data)->Ok_0;
    lemma_parsed_wf(data);
    let h = env.header.with_metadata(metadata);
    assert forall|i: int| 0 <= i < h.entries.len() implies (#[trigger] h.entries[i]).wf() by {
        assert(h.entries[i] == env.header.entries[i]);
    }
    lemma_parse_of_written(h, env.body);
}

/// Writing the metadata that an envelope already has changes nothing that the
/// envelope says; where the envelope carries its metadata length, not a byte.
pub proof fn lemma_update_metadata_same(data: Seq<u8>)
    requires
        spec_parse(data) is Ok,
    ensures
        spec_update_metadata(data, spec_parse(data)->Ok_0.header.metadata) is Ok,
        spec_parse(spec_update_metadata(data, spec_parse(data)->Ok_0.header.metadata)->Ok_0)
            == spec_parse(data),
        spec_has_metadata_len(data) ==> spec_update_metadata(
            data,
            spec_parse(data)->Ok_0.header.metadata,
        ) == Ok::<Seq<u8>, Error>(data),
{
    let env = spec_parse(data)->Ok_0;
    let m = env.header.metadata;
    lemma_parsed_wf(data);
    assert(env.header.with_metadata(m) == env.header);
    lemma_update_metadata_parses(data, m);
    if spec_has_metadata_len(data) {
        lemma_written_of_parsed(data);
    }
}

} // verus!
