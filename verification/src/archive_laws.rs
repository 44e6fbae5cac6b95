//! What an archive leaves in the output, told by its members.

use vstd::prelude::*;

use crate::archive::{
    calmed, calmed_upto, comes_of, decoded, extract_value, extraction, extracts_to, gzip_read,
    has_end_mark, header_values, normalized_mode, placed, placed_list_value, placed_upto,
    placed_value, placed_values, sparse_header, tar_listing, xz_read, zstd_read, Compression,
    ExtractError, Extraction, ExtractionView, PlacedBody, PlacedEntry, PlacedEntryView, Refusal,
    TarHeader, TarHeaderView,
};
use crate::path::components;

verus! {

/// The permissions of a member, bit by bit: the owner's are kept, group and others may
/// read and execute exactly where the owner may, and nobody but the owner may write.
pub proof fn permissions_follow_the_owner(mode: u32)
    ensures
        normalized_mode(mode) < 512,
        normalized_mode(mode) / 64 == mode / 64 % 8,
        normalized_mode(mode) / 32 % 2 == mode / 256 % 2,
        normalized_mode(mode) / 16 % 2 == 0,
        normalized_mode(mode) / 8 % 2 == mode / 64 % 2,
        normalized_mode(mode) / 4 % 2 == mode / 256 % 2,
        normalized_mode(mode) / 2 % 2 == 0,
        normalized_mode(mode) % 2 == mode / 64 % 2,
{
}

/// An archive without members leaves nothing.
pub proof fn no_members_leave_nothing(data: Seq<u8>)
    ensures
        extraction(data, None, seq![], None) == Ok::<ExtractionView, ExtractError>(
            ExtractionView { stream: data, entries: seq![] },
        ),
{
}

/// One more member at the end of an archive that can be unpacked. A path with a root or
/// an upward component spoils the archive, and so does a kind that is neither a file nor
/// a directory, and a file whose data the stream does not hold. The top level itself
/// adds nothing. Any other member adds one entry behind those before it, whose place
/// lacks exactly the first component of the path, whatever its depth; a file is the
/// part of the stream that the header says.
pub proof fn one_more_member_adds_itself(
    data: Seq<u8>,
    headers: Seq<TarHeaderView>,
    header: TarHeaderView,
)
    requires
        data.len() <= usize::MAX,
        extraction(data, None, headers, None) is Ok,
    ensures
        ({
            let before = extraction(data, None, headers, None)->Ok_0;
            let after = extraction(data, None, headers.push(header), None);
            let parts = components(header.path);
            let leads_out = exists|i: int|
                0 <= i < parts.len() && (#[trigger] parts[i] == seq![47u8] || parts[i] == seq![
                    46u8,
                    46u8,
                ]);
            if leads_out {
                after == Err::<ExtractionView, ExtractError>(
                    ExtractError::Refused(Refusal::UnsupportedPath),
                )
            } else if header.kind != 48 && header.kind != 53 {
                after == Err::<ExtractionView, ExtractError>(
                    ExtractError::Refused(Refusal::UnsupportedKind),
                )
            } else if parts.len() <= 1 {
                after == Ok::<ExtractionView, ExtractError>(before)
            } else if header.kind == 48 && header.offset + header.size > data.len() {
                after == Err::<ExtractionView, ExtractError>(
                    ExtractError::Refused(Refusal::Truncated),
                )
            } else {
                after matches Ok(e) && {
                    let last = e.entries[e.entries.len() - 1];
                    &&& e.stream == data
                    &&& e.entries.len() == before.entries.len() + 1
                    &&& e.entries.drop_last() == before.entries
                    &&& seq![parts[0]] + last.place == parts
                    &&& header.kind == 53 <==> last.body is Directory
                    &&& last.body matches PlacedBody::File { offset, size } ==> offset
                        == header.offset && size == header.size
                    &&& header.mode is None ==> last.mode is None
                    &&& header.mode is Some ==> last.mode == Some(normalized_mode(header.mode->0))
                }
            }
        }),
{
    let more = headers.push(header);
    let parts = components(header.path);
    lemma_placed_upto_front(data, headers, header, headers.len());
    assert(more[headers.len() as int] == header);
    let front = placed_upto(data, headers, headers.len());
    assert(placed_upto(data, more, headers.len()) == front);
    if parts.len() > 1 {
        assert(seq![parts[0]] + parts.drop_first() =~= parts);
    }
    if let Ok(Some(entry)) = placed(data, header) {
        assert(front->Ok_0.push(entry).drop_last() =~= front->Ok_0);
    }
}

proof fn lemma_placed_upto_front(
    data: Seq<u8>,
    headers: Seq<TarHeaderView>,
    header: TarHeaderView,
    count: nat,
)
    requires
        count <= headers.len(),
    ensures
        placed_upto(data, headers.push(header), count) == placed_upto(data, headers, count),
    decreases count,
{
    if count > 0 {
        lemma_placed_upto_front(data, headers, header, (count - 1) as nat);
        assert(headers.push(header)[count - 1] == headers[count - 1]);
    }
}

/// What spoils an archive spoils it whatever members follow, for the same reason.
pub proof fn spoiled_archive_stays_spoiled(
    data: Seq<u8>,
    headers: Seq<TarHeaderView>,
    header: TarHeaderView,
)
    requires
        extraction(data, None, headers, None) is Err,
    ensures
        extraction(data, None, headers.push(header), None) == extraction(data, None, headers, None),
{
    lemma_placed_upto_front(data, headers, header, headers.len());
}

/// Of an archive that is unpacked, the entries are, in order, the listed members with
/// more than one path component, and the place of each lacks exactly the first of them.
pub proof fn entries_are_the_members_without_their_top_level(
    data: Seq<u8>,
    decode_error: Option<std::io::Error>,
    headers: Seq<TarHeaderView>,
    list_error: Option<std::io::Error>,
)
    requires
        extraction(data, decode_error, headers, list_error) is Ok,
    ensures
        ({
            let e = extraction(data, decode_error, headers, list_error)->Ok_0;
            &&& e.stream == data
            &&& exists|from: Seq<int>|
                #![trigger from.len()]
                {
                    &&& from.len() == e.entries.len()
                    &&& forall|k: int|
                        0 <= k < from.len() ==> {
                            &&& 0 <= #[trigger] from[k] < headers.len()
                            &&& components(headers[from[k]].path).len() > 1
                            &&& seq![components(headers[from[k]].path)[0]] + e.entries[k].place
                                == components(headers[from[k]].path)
                        }
                    &&& forall|k: int, l: int|
                        0 <= k < l < from.len() ==> #[trigger] from[k] < #[trigger] from[l]
                    &&& forall|i: int|
                        0 <= i < headers.len() && components(#[trigger] headers[i].path).len() > 1
                            ==> from.contains(i)
                }
        }),
{
    let entries = placed_upto(data, headers, headers.len())->Ok_0;
    let from = lemma_origins(data, headers, headers.len());
    assert(from.len() == entries.len());
}

proof fn lemma_origins(data: Seq<u8>, headers: Seq<TarHeaderView>, count: nat) -> (from: Seq<int>)
    requires
        count <= headers.len(),
        placed_upto(data, headers, count) is Ok,
    ensures
        ({
            let entries = placed_upto(data, headers, count)->Ok_0;
            &&& from.len() == entries.len()
            &&& forall|k: int|
                0 <= k < from.len() ==> {
                    &&& 0 <= #[trigger] from[k] < count
                    &&& components(headers[from[k]].path).len() > 1
                    &&& seq![components(headers[from[k]].path)[0]] + entries[k].place
                        == components(headers[from[k]].path)
                }
            &&& forall|k: int, l: int|
                0 <= k < l < from.len() ==> #[trigger] from[k] < #[trigger] from[l]
            &&& forall|i: int|
                0 <= i < count && components(#[trigger] headers[i].path).len() > 1
                    ==> from.contains(i)
        }),
    decreases count,
{
    if count == 0 {
        seq![]
    } else {
        let last = count - 1;
        let before = placed_upto(data, headers, last as nat)->Ok_0;
        let entries = placed_upto(data, headers, count)->Ok_0;
        let inner = lemma_origins(data, headers, last as nat);
        let parts = components(headers[last].path);
        match placed(data, headers[last]) {
            Ok(Some(entry)) => {
                let from = inner.push(last);
                assert(seq![parts[0]] + parts.drop_first() =~= parts);
                assert forall|k: int| 0 <= k < from.len() implies {
                    &&& 0 <= #[trigger] from[k] < count
                    &&& components(headers[from[k]].path).len() > 1
                    &&& seq![components(headers[from[k]].path)[0]] + entries[k].place
                        == components(headers[from[k]].path)
                } by {
                    if k < inner.len() {
                        assert(from[k] == inner[k]);
                        assert(entries[k] == before[k]);
                    }
                }
                assert forall|i: int|
                    0 <= i < count && components(#[trigger] headers[i].path).len()
                        > 1 implies from.contains(i) by {
                    if i == last {
                        assert(from[inner.len() as int] == i);
                    } else {
                        assert(inner.contains(i));
                        let k = choose|k: int| 0 <= k < inner.len() && inner[k] == i;
                        assert(from[k] == i);
                    }
                }
                from
            },
            _ => inner,
        }
    }
}

/// How the errors of the readers count, told by what the stream gives without them. A
/// member that spoils the archive comes first, but a file that the stream does not hold
/// is laid to a decoder that failed. Behind that, a decoder that failed within the tar
/// stream comes before a listing that did.
pub proof fn errors_come_in_their_order(
    data: Seq<u8>,
    decode_error: Option<std::io::Error>,
    headers: Seq<TarHeaderView>,
    list_error: Option<std::io::Error>,
)
    ensures
        ({
            let plain = extraction(data, None, headers, None);
            let outcome = extraction(data, decode_error, headers, list_error);
            let truncated = plain == Err::<ExtractionView, ExtractError>(
                ExtractError::Refused(Refusal::Truncated),
            );
            &&& plain is Err && !(truncated && decode_error is Some) ==> outcome == plain
            &&& truncated && decode_error is Some ==> outcome == Err::<ExtractionView, ExtractError>(
                ExtractError::Decode(decode_error->0),
            )
            &&& plain is Ok && decode_error is Some && (list_error is Some || !has_end_mark(
                data,
                headers,
            )) ==> outcome == Err::<ExtractionView, ExtractError>(
                ExtractError::Decode(decode_error->0),
            )
            &&& plain is Ok && decode_error is None && list_error is Some ==> outcome == Err::<
                ExtractionView,
                ExtractError,
            >(ExtractError::Archive(list_error->0))
            &&& plain is Ok && list_error is None && (decode_error is None || has_end_mark(
                data,
                headers,
            )) ==> outcome == plain
        }),
{
}

/// The end of a tar stream is there where one block of 512 bytes follows on the blocks
/// that the data of the last member fill; `blocks` is how many those are.
pub proof fn end_follows_on_the_last_member(
    data: Seq<u8>,
    headers: Seq<TarHeaderView>,
    last: TarHeaderView,
    blocks: int,
)
    requires
        blocks * 512 >= last.size,
        (blocks - 1) * 512 < last.size,
        blocks >= 0,
    ensures
        has_end_mark(data, headers.push(last)) <==> last.offset + blocks * 512 + 512 <= data.len(),
        has_end_mark(data, seq![]) <==> 512 <= data.len(),
{
    assert(headers.push(last).last() == last);
    assert((last.size + 511) / 512 == blocks);
}

/// The stream that is listed differs from the one that was decoded in two bytes of each
/// block that reads as the header of a sparse member in the GNU format whose map goes
/// on, and nowhere else; their sum stays the same.
pub proof fn listed_stream_differs_in_sparse_headers_only(data: Seq<u8>, block: int, i: int)
    requires
        0 <= i < 512,
        0 <= block,
        block * 512 + i < data.len(),
    ensures
        calmed(data).len() == data.len(),
        ({
            let at = block * 512;
            let sparse = at + 512 <= data.len() && data[at + 156] == 83 && data[at + 482] == 1
                && data[at + 257] == 117 && data[at + 258] == 115 && data[at + 259] == 116
                && data[at + 260] == 97 && data[at + 261] == 114 && data[at + 262] == 32 && data[at
                + 263] == 32 && data[at + 264] == 0;
            calmed(data)[at + i] == (if sparse && i == 156 {
                84
            } else if sparse && i == 482 {
                0
            } else {
                data[at + i]
            })
        }),
{
    lemma_calmed_block(data, data.len() / 512, block, i);
    lemma_sparse_bytes(data, block);
}

proof fn lemma_sparse_bytes(data: Seq<u8>, block: int)
    requires
        0 <= block,
    ensures
        ({
            let at = block * 512;
            sparse_header(data, block) <==> at + 512 <= data.len() && data[at + 156] == 83
                && data[at + 482] == 1 && data[at + 257] == 117 && data[at + 258] == 115 && data[at
                + 259] == 116 && data[at + 260] == 97 && data[at + 261] == 114 && data[at + 262]
                == 32 && data[at + 263] == 32 && data[at + 264] == 0
        }),
{
    let at = block * 512;
    if at + 512 <= data.len() {
        let marks = data.subrange(at + 257, at + 265);
        let wanted = seq![117u8, 115, 116, 97, 114, 32, 32, 0];
        assert(marks[0] == data[at + 257] && marks[1] == data[at + 258] && marks[2] == data[at + 259]);
        assert(marks[3] == data[at + 260] && marks[4] == data[at + 261] && marks[5] == data[at + 262]);
        assert(marks[6] == data[at + 263] && marks[7] == data[at + 264]);
        if marks == wanted {
            assert(wanted[0] == 117 && wanted[1] == 115 && wanted[2] == 116 && wanted[3] == 97);
            assert(wanted[4] == 114 && wanted[5] == 32 && wanted[6] == 32 && wanted[7] == 0);
        } else if data[at + 257] == 117 && data[at + 258] == 115 && data[at + 259] == 116 && data[at
            + 260] == 97 && data[at + 261] == 114 && data[at + 262] == 32 && data[at + 263] == 32
            && data[at + 264] == 0 {
            assert(marks =~= wanted);
        }
    }
}

proof fn lemma_calmed_block(data: Seq<u8>, count: nat, block: int, i: int)
    requires
        count * 512 <= data.len(),
        0 <= i < 512,
        0 <= block,
        block * 512 + i < data.len(),
    ensures
        calmed_upto(data, count).len() == data.len(),
        calmed_upto(data, count)[block * 512 + i] == (if block < count && sparse_header(data, block)
            && i == 156 {
            84
        } else if block < count && sparse_header(data, block) && i == 482 {
            0
        } else {
            data[block * 512 + i]
        }),
    decreases count,
{
    if count > 0 {
        lemma_calmed_block(data, (count - 1) as nat, block, i);
    }
}

/// An archive that is not compressed is its own stream, and decodes; a compressed one is
/// what its decoder yields, read in blocks of 512 bytes.
pub proof fn compression_names_the_decoder(archive: Seq<u8>)
    ensures
        decoded(Compression::Uncompressed, archive) == (archive, false),
        decoded(Compression::Gzip, archive) == gzip_read(archive, 512),
        decoded(Compression::Xz, archive) == xz_read(archive, 512),
        decoded(Compression::Zstd, archive) == zstd_read(archive, 512),
{
}

/// What comes of an archive comes of the stream it decodes to and the members listed
/// there, with an error behind either exactly where its reader fails.
pub proof fn archive_is_judged_by_its_own_stream(
    compression: Compression,
    archive: Seq<u8>,
    outcome: Result<ExtractionView, ExtractError>,
)
    requires
        extracts_to(compression, archive, outcome),
    ensures
        ({
            let (data, decoding_fails) = decoded(compression, archive);
            let (headers, listing_fails) = tar_listing(calmed(data));
            &&& outcome matches Ok(e) ==> {
                &&& e.stream == data
                &&& !listing_fails
                &&& decoding_fails ==> has_end_mark(data, headers)
                &&& outcome == extraction(data, None, headers, None)
            }
            &&& outcome == Err::<ExtractionView, ExtractError>(
                ExtractError::Refused(Refusal::UnsupportedPath),
            ) || outcome == Err::<ExtractionView, ExtractError>(
                ExtractError::Refused(Refusal::UnsupportedKind),
            ) || outcome == Err::<ExtractionView, ExtractError>(
                ExtractError::Refused(Refusal::Truncated),
            ) ==> outcome == extraction(data, None, headers, None)
            &&& outcome matches Err(ExtractError::Decode(_)) ==> decoding_fails
            &&& outcome matches Err(ExtractError::Archive(_)) ==> listing_fails && !decoding_fails
            &&& !decoding_fails && !listing_fails ==> outcome == extraction(
                data,
                None,
                headers,
                None,
            )
            &&& exists|decode_error: Option<std::io::Error>, list_error: Option<std::io::Error>|
                decode_error is Some == decoding_fails && list_error is Some == listing_fails
                    && outcome == #[trigger] extraction(data, decode_error, headers, list_error)
        }),
{
    let (data, decoding_fails) = decoded(compression, archive);
    let (headers, listing_fails) = tar_listing(calmed(data));
    let decode_error = choose|decode_error: Option<std::io::Error>|
        (decode_error is Some) == decoded(compression, archive).1 && #[trigger] comes_of(
            decoded(compression, archive).0,
            decode_error,
            outcome,
        );
    assert(comes_of(data, decode_error, outcome));
    let list_error = choose|list_error: Option<std::io::Error>|
        list_error is Some == listing_fails && outcome == #[trigger] extraction(
            data,
            decode_error,
            headers,
            list_error,
        );
    assert(outcome == extraction(data, decode_error, headers, list_error));
}

/// The contents of a file are the bytes of the stream from its offset on, and the piece
/// behind `done` of them is the next ones, up to 16 MiB.
pub proof fn pieces_are_parts_of_the_stream(e: ExtractionView, index: int, done: int, j: int)
    requires
        e.wf(),
        0 <= index < e.entries.len(),
    ensures
        e.entries[index].body is Directory ==> e.contents(index).len() == 0,
        e.entries[index].body matches PlacedBody::File { offset, size } ==> {
            &&& e.contents(index).len() == size
            &&& 0 <= j < size ==> e.contents(index)[j] == e.stream[offset + j]
            &&& 0 <= done < size ==> {
                &&& e.piece(index, done).len() == (if size - done < 16777216 {
                    size - done
                } else {
                    16777216
                })
                &&& 0 <= j < e.piece(index, done).len() ==> e.piece(index, done)[j]
                    == e.stream[offset + done + j]
            }
        },
{
}

/// The file of an entry lies within the stream.
pub proof fn files_lie_within_the_stream(e: ExtractionView, index: int)
    requires
        e.wf(),
        0 <= index < e.entries.len(),
    ensures
        e.entries[index].body matches PlacedBody::File { offset, size } ==> offset + size
            <= e.stream.len(),
{
}

/// Headers and entries are told field by field, each as it is.
pub proof fn members_are_told_as_they_are(
    header: TarHeader,
    entry: PlacedEntry,
    headers: Seq<TarHeader>,
    entries: Seq<PlacedEntry>,
    extracted: Extraction,
    i: int,
)
    ensures
        header@.path == header.path@,
        header@.kind == header.kind,
        header@.mode == header.mode,
        header@.offset == header.offset,
        header@.size == header.size,
        entry@.place.len() == entry.place@.len(),
        0 <= i < entry.place@.len() ==> entry@.place[i] == entry.place@[i]@,
        entry@.body == entry.body,
        entry@.mode == entry.mode,
        header_values(headers).len() == headers.len(),
        0 <= i < headers.len() ==> header_values(headers)[i] == headers[i]@,
        placed_values(entries).len() == entries.len(),
        0 <= i < entries.len() ==> placed_values(entries)[i] == entries[i]@,
        extracted@.stream == extracted.stream@,
        extracted@.entries.len() == extracted.entries@.len(),
        0 <= i < extracted.entries@.len() ==> extracted@.entries[i] == extracted.entries@[i]@,
{
}

/// Results are told as they are.
pub proof fn results_are_told_as_they_are(
    one: Result<Option<PlacedEntry>, Refusal>,
    list: Result<Vec<PlacedEntry>, Refusal>,
    all: Result<Extraction, ExtractError>,
)
    ensures
        list matches Ok(entries) ==> placed_list_value(list) == Ok::<
            Seq<PlacedEntryView>,
            Refusal,
        >(placed_values(entries@)),
        list matches Err(refusal) ==> placed_list_value(list) == Err::<
            Seq<PlacedEntryView>,
            Refusal,
        >(refusal),
        one matches Ok(Some(entry)) ==> placed_value(one) == Ok::<
            Option<PlacedEntryView>,
            Refusal,
        >(Some(entry@)),
        one matches Ok(None) ==> placed_value(one) == Ok::<Option<PlacedEntryView>, Refusal>(None),
        one matches Err(refusal) ==> placed_value(one) == Err::<Option<PlacedEntryView>, Refusal>(
            refusal,
        ),
        all matches Ok(extracted) ==> extract_value(all) == Ok::<ExtractionView, ExtractError>(
            extracted@,
        ),
        all matches Err(error) ==> extract_value(all) == Err::<ExtractionView, ExtractError>(
            error,
        ),
{
}

} // verus!
