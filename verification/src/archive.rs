//! Component archives: what they hold, and where it goes.
//!
//! An archive is a tar stream, as it is or compressed. Its members are placed
//! without their top-level directory; a member that could land elsewhere, or that
//! is neither a file nor a directory, spoils the whole archive.

use vstd::prelude::*;
use vstd::slice::slice_subrange;

use crate::path::{
    byte_strings, components, components_behind_first_are_names, copy_range, is_name, same_bytes,
    UnixPath, DOT, SEPARATOR,
};
use crate::unpack::IO_CHUNK_SIZE;

verus! {

/// How an archive is compressed.
#[derive(Debug, Clone, Copy, PartialEq, Eq, Structural)]
pub enum Compression {
    Uncompressed,
    Gzip,
    Xz,
    Zstd,
}

/// The error of a reader. Nothing is known of what it holds.
#[verifier::external_type_specification]
#[verifier::external_body]
pub struct ExIoError(std::io::Error);

/// The size of the blocks that a tar stream is made of.
pub const TAR_BLOCK: usize = 512;

/// The bytes that `flate2::bufread::GzDecoder` yields on `data` when it is read into a
/// buffer of `block` bytes until it yields none or fails, and whether it fails.
pub uninterp spec fn gzip_read(data: Seq<u8>, block: nat) -> (Seq<u8>, bool);

/// The bytes that `xz2::bufread::XzDecoder` yields on `data` when it is read into a
/// buffer of `block` bytes until it yields none or fails, and whether it fails.
pub uninterp spec fn xz_read(data: Seq<u8>, block: nat) -> (Seq<u8>, bool);

/// The bytes that `zstd::stream::read::Decoder` yields on `data` when it is read into a
/// buffer of `block` bytes until it yields none or fails, and whether it fails.
pub uninterp spec fn zstd_read(data: Seq<u8>, block: nat) -> (Seq<u8>, bool);

/// Reads `flate2::bufread::GzDecoder::new(data)` into a buffer of `block` bytes until
/// it yields none or fails. What it yields and whether it fails is not stated further;
/// it depends on `data` and `block` alone. What the decoder had ready in the very read
/// that fails is lost.
#[verifier::external_body]
fn read_gzip(data: &[u8], block: usize) -> (r: (Vec<u8>, Option<std::io::Error>))
    requires
        block > 0,
    ensures
        (r.0@, r.1 is Some) == gzip_read(data@, block as nat),
{
    let mut decoder = flate2::bufread::GzDecoder::new(data);
    let (mut bytes, mut buffer) = (Vec::new(), vec![0; block]);
    loop {
        match std::io::Read::read(&mut decoder, &mut buffer) {
            Ok(0) => return (bytes, None),
            Ok(count) => bytes.extend_from_slice(&buffer[..count]),
            Err(error) => return (bytes, Some(error)),
        }
    }
}

/// Reads `xz2::bufread::XzDecoder::new(data)` into a buffer of `block` bytes until
/// it yields none or fails. What it yields and whether it fails is not stated further;
/// it depends on `data` and `block` alone. What the decoder had ready in the very read
/// that fails is lost.
#[verifier::external_body]
fn read_xz(data: &[u8], block: usize) -> (r: (Vec<u8>, Option<std::io::Error>))
    requires
        block > 0,
    ensures
        (r.0@, r.1 is Some) == xz_read(data@, block as nat),
{
    let mut decoder = xz2::bufread::XzDecoder::new(data);
    let (mut bytes, mut buffer) = (Vec::new(), vec![0; block]);
    loop {
        match std::io::Read::read(&mut decoder, &mut buffer) {
            Ok(0) => return (bytes, None),
            Ok(count) => bytes.extend_from_slice(&buffer[..count]),
            Err(error) => return (bytes, Some(error)),
        }
    }
}

/// Reads `zstd::stream::read::Decoder::with_buffer(data)` into a buffer of `block`
/// bytes until it yields none or fails; it may fail before the first read. What it
/// yields and whether it fails is not stated further; it depends on `data` and `block`
/// alone. What the decoder had ready in the very read that fails is lost.
#[verifier::external_body]
fn read_zstd(data: &[u8], block: usize) -> (r: (Vec<u8>, Option<std::io::Error>))
    requires
        block > 0,
    ensures
        (r.0@, r.1 is Some) == zstd_read(data@, block as nat),
{
    let mut decoder = match zstd::stream::read::Decoder::with_buffer(data) {
        Ok(decoder) => decoder,
        Err(error) => return (Vec::new(), Some(error)),
    };
    let (mut bytes, mut buffer) = (Vec::new(), vec![0; block]);
    loop {
        match std::io::Read::read(&mut decoder, &mut buffer) {
            Ok(0) => return (bytes, None),
            Ok(count) => bytes.extend_from_slice(&buffer[..count]),
            Err(error) => return (bytes, Some(error)),
        }
    }
}

/// The tar stream that an archive decodes to, read a block at a time, and whether
/// decoding fails behind it.
pub open spec fn decoded(compression: Compression, archive: Seq<u8>) -> (Seq<u8>, bool) {
    match compression {
        Compression::Uncompressed => (archive, false),
        Compression::Gzip => gzip_read(archive, TAR_BLOCK as nat),
        Compression::Xz => xz_read(archive, TAR_BLOCK as nat),
        Compression::Zstd => zstd_read(archive, TAR_BLOCK as nat),
    }
}

/// Decodes an archive: all that can be decoded, a block at a time, and the error that
/// stands behind it, if there is one.
pub fn decode(compression: Compression, archive: Vec<u8>) -> (r: (
    Vec<u8>,
    Option<std::io::Error>,
))
    ensures
        (r.0@, r.1 is Some) == decoded(compression, archive@),
{
    match compression {
        Compression::Uncompressed => (archive, None),
        Compression::Gzip => read_gzip(archive.as_slice(), TAR_BLOCK),
        Compression::Xz => read_xz(archive.as_slice(), TAR_BLOCK),
        Compression::Zstd => read_zstd(archive.as_slice(), TAR_BLOCK),
    }
}

/// The header of an archive member: its path, its kind, its permissions where
/// they can be read, and where its data stand in the tar stream.
#[derive(Debug)]
pub struct TarHeader {
    pub path: Vec<u8>,
    pub kind: u8,
    pub mode: Option<u32>,
    pub offset: u64,
    pub size: u64,
}

/// A member header, by value.
pub struct TarHeaderView {
    pub path: Seq<u8>,
    pub kind: u8,
    pub mode: Option<u32>,
    pub offset: u64,
    pub size: u64,
}

impl View for TarHeader {
    type V = TarHeaderView;

    open spec fn view(&self) -> TarHeaderView {
        TarHeaderView {
            path: self.path@,
            kind: self.kind,
            mode: self.mode,
            offset: self.offset,
            size: self.size,
        }
    }
}

/// The headers of a list, by value.
pub open spec fn header_values(headers: Seq<TarHeader>) -> Seq<TarHeaderView> {
    Seq::new(headers.len(), |i: int| headers[i]@)
}

/// The marks of a header in the GNU format.
pub open spec fn gnu_marks() -> Seq<u8> {
    seq![117, 115, 116, 97, 114, 32, 32, 0]
}

/// Whether the block at `index` reads as the header of a sparse member in the GNU
/// format whose map goes on behind it.
pub open spec fn sparse_header(data: Seq<u8>, index: int) -> bool {
    let at = index * TAR_BLOCK;
    &&& 0 <= index
    &&& at + TAR_BLOCK <= data.len()
    &&& data[at + 156] == 83
    &&& data[at + 482] == 1
    &&& data.subrange(at + 257, at + 265) == gnu_marks()
}

/// The stream with the first `count` blocks calmed: one that reads as the header of a
/// sparse member whose map goes on gets a kind that nobody knows, and no map behind
/// it. The sum of its bytes, which a header is checked by, stays the same.
pub open spec fn calmed_upto(data: Seq<u8>, count: nat) -> Seq<u8>
    decreases count,
{
    if count == 0 {
        data
    } else {
        let index = count - 1;
        let before = calmed_upto(data, index as nat);
        if sparse_header(data, index) {
            before.update(index * TAR_BLOCK + 156, 84).update(index * TAR_BLOCK + 482, 0)
        } else {
            before
        }
    }
}

/// The stream with all its blocks calmed. The members stay where they are; a sparse
/// one spoils its archive under either kind.
pub open spec fn calmed(data: Seq<u8>) -> Seq<u8> {
    calmed_upto(data, data.len() / TAR_BLOCK as nat)
}

/// The member headers that `tar::Archive` lists in `data`, and whether it fails
/// behind them.
pub uninterp spec fn tar_listing(data: Seq<u8>) -> (Seq<TarHeaderView>, bool);

/// Lists `tar::Archive::new(data).entries()`: the header of each member, and the
/// error that ends the list, if one does. (`entries` itself fails only on an
/// archive that was read from before.) Which members there are is not stated; they
/// depend on `data` alone. Along the map of a sparse member the listing adds up
/// positions without a test, which could overflow on the streams left out.
#[verifier::external_body]
fn list_tar(data: &[u8]) -> (r: (Vec<TarHeader>, Option<std::io::Error>))
    requires
        forall|index: int| !sparse_header(data@, index),
    ensures
        (header_values(r.0@), r.1 is Some) == tar_listing(data@),
{
    let mut headers = Vec::new();
    let mut archive = tar::Archive::new(data);
    for entry in archive.entries().into_iter().flatten() {
        match entry {
            Ok(entry) => headers.push(TarHeader {
                path: entry.path_bytes().into_owned(),
                kind: entry.header().entry_type().as_byte(),
                mode: entry.header().mode().ok(),
                offset: entry.raw_file_position(),
                size: entry.size(),
            }),
            Err(error) => return (headers, Some(error)),
        }
    }
    (headers, None)
}

/// Whether `part` stands in `data` at position `at`.
fn stands(data: &[u8], at: usize, part: &[u8]) -> (r: bool)
    requires
        at + part@.len() <= data@.len(),
    ensures
        r == (data@.subrange(at as int, at + part@.len()) == part@),
{
    let end: usize = data.len();
    let mut i: usize = 0;
    while i < part.len()
        invariant
            i <= part@.len(),
            end == data@.len(),
            at + part@.len() <= end,
            forall|j: int| 0 <= j < i ==> data@[at + j] == part@[j],
        decreases part@.len() - i,
    {
        if data[at + i] != part[i] {
            assert(data@.subrange(at as int, at + part@.len())[i as int] != part@[i as int]);
            return false;
        }
        i = i + 1;
    }
    assert(data@.subrange(at as int, at + part@.len()) =~= part@);
    true
}

/// A block that is the same in two streams reads the same.
proof fn lemma_same_block(one: Seq<u8>, other: Seq<u8>, index: int)
    requires
        0 <= index,
        one.len() == other.len(),
        forall|i: int|
            index * TAR_BLOCK <= i < index * TAR_BLOCK + TAR_BLOCK && i < one.len() ==> one[i]
                == other[i],
    ensures
        sparse_header(one, index) == sparse_header(other, index),
{
    let at = index * TAR_BLOCK;
    if at + TAR_BLOCK <= one.len() {
        assert(one.subrange(at + 257, at + 265) =~= other.subrange(at + 257, at + 265));
    }
}

/// Calmed blocks read as no such header, and what stands behind them is unchanged.
proof fn lemma_calmed_upto(data: Seq<u8>, count: nat)
    requires
        count * TAR_BLOCK <= data.len(),
    ensures
        calmed_upto(data, count).len() == data.len(),
        forall|i: int| count * TAR_BLOCK <= i < data.len() ==> calmed_upto(data, count)[i]
            == data[i],
        forall|index: int| 0 <= index < count ==> !sparse_header(calmed_upto(data, count), index),
    decreases count,
{
    if count > 0 {
        let last = count - 1;
        let before = calmed_upto(data, last as nat);
        let after = calmed_upto(data, count);
        lemma_calmed_upto(data, last as nat);
        assert forall|index: int| 0 <= index < count implies !sparse_header(after, index) by {
            if index < last {
                lemma_same_block(before, after, index);
                assert(!sparse_header(before, index));
            } else if sparse_header(data, last) {
                assert(after[last * TAR_BLOCK + 156] == 84);
            } else {
                lemma_same_block(data, after, last);
            }
        }
    }
}

/// A calmed stream is as long as before and holds no block that reads as the header of
/// a sparse member whose map goes on.
pub proof fn calmed_streams_are_calm(data: Seq<u8>)
    ensures
        calmed(data).len() == data.len(),
        forall|index: int| !sparse_header(calmed(data), index),
{
    let count = data.len() / TAR_BLOCK as nat;
    lemma_calmed_upto(data, count);
    assert forall|index: int| !sparse_header(calmed(data), index) by {
        if 0 <= index < count {
        } else if index >= count {
            assert(index * TAR_BLOCK + TAR_BLOCK > data.len());
        }
    }
}

proof fn lemma_calm_stays(data: Seq<u8>, count: nat)
    requires
        forall|index: int| !sparse_header(data, index),
    ensures
        calmed_upto(data, count) == data,
    decreases count,
{
    if count > 0 {
        lemma_calm_stays(data, (count - 1) as nat);
    }
}

/// A stream without such a block is listed as it is.
pub proof fn calm_streams_stay_as_they_are(data: Seq<u8>)
    requires
        forall|index: int| !sparse_header(data, index),
    ensures
        calmed(data) == data,
{
    lemma_calm_stays(data, data.len() / TAR_BLOCK as nat);
}

/// Whether the block at `index` reads as the header of a sparse member whose map goes
/// on behind it.
fn is_sparse_header(data: &[u8], index: usize) -> (r: bool)
    requires
        index * TAR_BLOCK + TAR_BLOCK <= data@.len(),
    ensures
        r == sparse_header(data@, index as int),
{
    let end: usize = data.len();
    assert(index * TAR_BLOCK + TAR_BLOCK <= end);
    let at: usize = index * TAR_BLOCK;
    if data[at + 156] != 83 || data[at + 482] != 1 {
        return false;
    }
    let marks: Vec<u8> = vec![117, 115, 116, 97, 114, 32, 32, 0];
    assert(marks@ =~= gnu_marks());
    stands(data, at + 257, marks.as_slice())
}

/// The stream with all its blocks calmed, unless it is calm already.
fn calm(data: &[u8]) -> (r: Option<Vec<u8>>)
    ensures
        r matches Some(stream) ==> stream@ == calmed(data@),
        r is None ==> data@ == calmed(data@),
{
    let end: usize = data.len();
    let count: usize = end / TAR_BLOCK;
    let mut stream: Option<Vec<u8>> = None;
    let mut index: usize = 0;
    while index < count
        invariant
            index <= count,
            end == data@.len(),
            count * TAR_BLOCK <= end,
            match stream {
                Some(bytes) => bytes@ == calmed_upto(data@, index as nat),
                None => data@ == calmed_upto(data@, index as nat),
            },
        decreases count - index,
    {
        if is_sparse_header(data, index) {
            proof {
                lemma_calmed_upto(data@, index as nat);
            }
            let mut bytes = match stream {
                Some(bytes) => bytes,
                None => copy_range(data, 0, end),
            };
            assert(bytes@ =~= calmed_upto(data@, index as nat));
            let at: usize = index * TAR_BLOCK;
            bytes.set(at + 156, 84);
            bytes.set(at + 482, 0);
            stream = Some(bytes);
        }
        index = index + 1;
    }
    stream
}

/// Lists the members of a stream, calmed.
fn list_members(data: &[u8]) -> (r: (Vec<TarHeader>, Option<std::io::Error>))
    ensures
        (header_values(r.0@), r.1 is Some) == tar_listing(calmed(data@)),
{
    proof {
        calmed_streams_are_calm(data@);
    }
    match calm(data) {
        Some(stream) => list_tar(stream.as_slice()),
        None => list_tar(data),
    }
}

/// The kind of a member that is a regular file.
pub const KIND_FILE: u8 = 48;

/// The kind of a member that is a directory.
pub const KIND_DIRECTORY: u8 = 53;

/// What a member leaves in the output: a directory, or a file whose contents are the
/// `size` bytes of the tar stream from `offset` on.
#[derive(Debug, Clone, Copy, PartialEq, Eq, Structural)]
pub enum PlacedBody {
    Directory,
    File { offset: usize, size: usize },
}

/// A member with its place under the output directory, as the names that lead
/// there.
#[derive(Debug, PartialEq, Eq)]
pub struct PlacedEntry {
    pub place: Vec<Vec<u8>>,
    pub body: PlacedBody,
    pub mode: Option<u32>,
}

/// A placed member, by value.
pub struct PlacedEntryView {
    pub place: Seq<Seq<u8>>,
    pub body: PlacedBody,
    pub mode: Option<u32>,
}

impl View for PlacedEntry {
    type V = PlacedEntryView;

    open spec fn view(&self) -> PlacedEntryView {
        PlacedEntryView { place: byte_strings(self.place@), body: self.body, mode: self.mode }
    }
}

/// The placed members of a list, by value.
pub open spec fn placed_values(entries: Seq<PlacedEntry>) -> Seq<PlacedEntryView> {
    Seq::new(entries.len(), |i: int| entries[i]@)
}

/// Why a member spoils its archive.
#[derive(Debug, Clone, Copy, PartialEq, Eq, Structural)]
pub enum Refusal {
    /// Its path is absolute or leads upwards.
    UnsupportedPath,
    /// It is neither a regular file nor a directory.
    UnsupportedKind,
    /// The stream ends within its data.
    Truncated,
}

/// The component that leads upwards.
pub open spec fn parent_component() -> Seq<u8> {
    seq![DOT, DOT]
}

/// Whether a path may be unpacked: it starts below the output and never leads
/// upwards.
pub open spec fn supported_path(path: Seq<u8>) -> bool {
    forall|i: int|
        0 <= i < components(path).len() ==> #[trigger] components(path)[i] != seq![SEPARATOR]
            && components(path)[i] != parent_component()
}

/// The permissions that a member is given: the owner keeps its own, group and
/// others get those of the owner but for writing.
pub open spec fn normalized_mode(mode: u32) -> u32 {
    let owner = mode / 64 % 8;
    let others = if owner / 2 % 2 == 1 {
        owner - 2
    } else {
        owner as int
    };
    (owner * 64 + others * 8 + others) as u32
}

/// The permissions that a member is given, where its header has any.
pub open spec fn given_mode(mode: Option<u32>) -> Option<u32> {
    match mode {
        Some(bits) => Some(normalized_mode(bits)),
        None => None,
    }
}

/// The permissions that a member is given, where its header has any.
fn normalize_mode(mode: Option<u32>) -> (r: Option<u32>)
    ensures
        r == given_mode(mode),
{
    match mode {
        Some(bits) => {
            let owner: u32 = bits / 64 % 8;
            let others: u32 = if owner / 2 % 2 == 1 {
                owner - 2
            } else {
                owner
            };
            Some(owner * 64 + others * 8 + others)
        },
        None => None,
    }
}

/// What a member of the tar stream `data` leaves in the output: nothing where it is
/// the top level itself, else what it holds, under its path without the top level.
pub open spec fn placed(
    data: Seq<u8>,
    header: TarHeaderView,
) -> Result<Option<PlacedEntryView>, Refusal> {
    let parts = components(header.path);
    if !supported_path(header.path) {
        Err(Refusal::UnsupportedPath)
    } else if header.kind != KIND_FILE && header.kind != KIND_DIRECTORY {
        Err(Refusal::UnsupportedKind)
    } else if parts.len() <= 1 {
        Ok(None)
    } else if header.kind == KIND_DIRECTORY {
        Ok(
            Some(
                PlacedEntryView {
                    place: parts.drop_first(),
                    body: PlacedBody::Directory,
                    mode: given_mode(header.mode),
                },
            ),
        )
    } else if header.offset + header.size > data.len() {
        Err(Refusal::Truncated)
    } else {
        Ok(
            Some(
                PlacedEntryView {
                    place: parts.drop_first(),
                    body: PlacedBody::File {
                        offset: header.offset as usize,
                        size: header.size as usize,
                    },
                    mode: given_mode(header.mode),
                },
            ),
        )
    }
}

/// What the first `count` members leave in the output, in their order, unless one
/// of them spoils the archive.
pub open spec fn placed_upto(
    data: Seq<u8>,
    headers: Seq<TarHeaderView>,
    count: nat,
) -> Result<Seq<PlacedEntryView>, Refusal>
    decreases count,
{
    if count == 0 {
        Ok(seq![])
    } else {
        match placed_upto(data, headers, (count - 1) as nat) {
            Err(refusal) => Err(refusal),
            Ok(before) => match placed(data, headers[count - 1]) {
                Err(refusal) => Err(refusal),
                Ok(None) => Ok(before),
                Ok(Some(entry)) => Ok(before.push(entry)),
            },
        }
    }
}

/// What all members leave in the output.
pub open spec fn all_placed(
    data: Seq<u8>,
    headers: Seq<TarHeaderView>,
) -> Result<Seq<PlacedEntryView>, Refusal> {
    placed_upto(data, headers, headers.len())
}

/// A placed member, by value, or why there is none.
pub open spec fn placed_value(
    r: Result<Option<PlacedEntry>, Refusal>,
) -> Result<Option<PlacedEntryView>, Refusal> {
    match r {
        Ok(Some(entry)) => Ok(Some(entry@)),
        Ok(None) => Ok(None),
        Err(refusal) => Err(refusal),
    }
}

/// Whether the components of a path may be unpacked.
fn check_path(parts: &Vec<Vec<u8>>) -> (r: bool)
    ensures
        r == (forall|i: int|
            0 <= i < parts@.len() ==> #[trigger] byte_strings(parts@)[i] != seq![SEPARATOR]
                && byte_strings(parts@)[i] != parent_component()),
{
    let root: Vec<u8> = vec![SEPARATOR];
    let up: Vec<u8> = vec![DOT, DOT];
    assert(root@ =~= seq![SEPARATOR]);
    assert(up@ =~= parent_component());
    let mut i: usize = 0;
    while i < parts.len()
        invariant
            i <= parts@.len(),
            root@ == seq![SEPARATOR],
            up@ == parent_component(),
            forall|j: int|
                0 <= j < i ==> #[trigger] byte_strings(parts@)[j] != seq![SEPARATOR]
                    && byte_strings(parts@)[j] != parent_component(),
        decreases parts@.len() - i,
    {
        assert(byte_strings(parts@)[i as int] == parts@[i as int]@);
        if same_bytes(parts[i].as_slice(), root.as_slice()) || same_bytes(
            parts[i].as_slice(),
            up.as_slice(),
        ) {
            return false;
        }
        i = i + 1;
    }
    true
}

/// The components of a list behind the first.
fn behind_first(parts: &Vec<Vec<u8>>) -> (r: Vec<Vec<u8>>)
    requires
        parts@.len() > 0,
    ensures
        byte_strings(r@) == byte_strings(parts@).drop_first(),
{
    let mut rest: Vec<Vec<u8>> = Vec::new();
    let mut i: usize = 1;
    while i < parts.len()
        invariant
            1 <= i <= parts@.len(),
            rest@.len() == i - 1,
            forall|j: int| 0 <= j < i - 1 ==> #[trigger] rest@[j]@ == parts@[j + 1]@,
        decreases parts@.len() - i,
    {
        let part = copy_range(parts[i].as_slice(), 0, parts[i].len());
        assert(part@ =~= parts@[i as int]@);
        rest.push(part);
        i = i + 1;
    }
    assert(byte_strings(rest@) =~= byte_strings(parts@).drop_first());
    rest
}

/// What a member of the tar stream `data` leaves in the output.
pub fn place_entry(data: &[u8], header: &TarHeader) -> (r: Result<Option<PlacedEntry>, Refusal>)
    ensures
        placed_value(r) == placed(data@, header@),
{
    let path = UnixPath { bytes: copy_range(header.path.as_slice(), 0, header.path.len()) };
    assert(path@ =~= header@.path);
    let parts = path.components();
    if !check_path(&parts) {
        return Err(Refusal::UnsupportedPath);
    }
    if header.kind != KIND_FILE && header.kind != KIND_DIRECTORY {
        return Err(Refusal::UnsupportedKind);
    }
    if parts.len() <= 1 {
        return Ok(None);
    }
    let place = behind_first(&parts);
    let mode = normalize_mode(header.mode);
    if header.kind == KIND_DIRECTORY {
        return Ok(Some(PlacedEntry { place, body: PlacedBody::Directory, mode }));
    }
    if header.offset as u128 + header.size as u128 > data.len() as u128 {
        return Err(Refusal::Truncated);
    }
    let body = PlacedBody::File { offset: header.offset as usize, size: header.size as usize };
    Ok(Some(PlacedEntry { place, body, mode }))
}

/// A list of placed members, by value, or why there is none.
pub open spec fn placed_list_value(
    r: Result<Vec<PlacedEntry>, Refusal>,
) -> Result<Seq<PlacedEntryView>, Refusal> {
    match r {
        Ok(entries) => Ok(placed_values(entries@)),
        Err(refusal) => Err(refusal),
    }
}

/// The first refusal among the members up to `count` is that of all.
proof fn lemma_refusal_stays(data: Seq<u8>, headers: Seq<TarHeaderView>, count: nat, more: nat)
    requires
        count <= more,
        placed_upto(data, headers, count) is Err,
    ensures
        placed_upto(data, headers, more) == placed_upto(data, headers, count),
    decreases more,
{
    if count < more {
        lemma_refusal_stays(data, headers, count, (more - 1) as nat);
    }
}

/// What the members of the tar stream `data` leave in the output, in their order,
/// or why the first that spoils the archive does so.
pub fn place_entries(data: &[u8], headers: &[TarHeader]) -> (r: Result<
    Vec<PlacedEntry>,
    Refusal,
>)
    ensures
        placed_list_value(r) == all_placed(data@, header_values(headers@)),
{
    let ghost values = header_values(headers@);
    let mut entries: Vec<PlacedEntry> = Vec::new();
    assert(placed_values(entries@) =~= seq![]);
    let mut done: usize = 0;
    while done < headers.len()
        invariant
            done <= headers@.len(),
            values == header_values(headers@),
            placed_upto(data@, values, done as nat) == Ok::<Seq<PlacedEntryView>, Refusal>(
                placed_values(entries@),
            ),
        decreases headers@.len() - done,
    {
        let ghost before = entries@;
        let next = place_entry(data, &headers[done]);
        done = done + 1;
        match next {
            Err(refusal) => {
                proof {
                    lemma_refusal_stays(data@, values, done as nat, values.len());
                }
                return Err(refusal);
            },
            Ok(None) => {},
            Ok(Some(entry)) => {
                entries.push(entry);
                assert(placed_values(entries@) =~= placed_values(before).push(entry@));
            },
        }
    }
    Ok(entries)
}

/// Why an archive cannot be unpacked.
#[derive(Debug)]
pub enum ExtractError {
    /// A member spoils it.
    Refused(Refusal),
    /// Its tar stream is broken.
    Archive(std::io::Error),
    /// It cannot be decoded as far as its tar stream goes.
    Decode(std::io::Error),
}

/// What an archive leaves in the output: the tar stream that it decodes to, and its
/// members in their order, whose files are parts of that stream.
#[derive(Debug)]
pub struct Extraction {
    pub stream: Vec<u8>,
    pub entries: Vec<PlacedEntry>,
}

/// An extraction, by value.
pub struct ExtractionView {
    pub stream: Seq<u8>,
    pub entries: Seq<PlacedEntryView>,
}

impl View for Extraction {
    type V = ExtractionView;

    open spec fn view(&self) -> ExtractionView {
        ExtractionView { stream: self.stream@, entries: placed_values(self.entries@) }
    }
}

impl ExtractionView {
    /// Whether the file of each member is a part of the stream.
    pub open spec fn wf(self) -> bool {
        forall|i: int|
            0 <= i < self.entries.len() ==> (#[trigger] self.entries[i].body matches PlacedBody::File {
                offset,
                size,
            } ==> offset + size <= self.stream.len())
    }

    /// The contents of the file that a member leaves.
    pub open spec fn contents(self, index: int) -> Seq<u8> {
        match self.entries[index].body {
            PlacedBody::Directory => seq![],
            PlacedBody::File { offset, size } => self.stream.subrange(
                offset as int,
                offset + size,
            ),
        }
    }

    /// The piece of a file's contents behind the first `done` bytes.
    pub open spec fn piece(self, index: int, done: int) -> Seq<u8> {
        let contents = self.contents(index);
        contents.subrange(
            done,
            if contents.len() - done <= IO_CHUNK_SIZE {
                contents.len() as int
            } else {
                done + IO_CHUNK_SIZE
            },
        )
    }
}

impl Extraction {
    /// The next piece to write of the file that the member at `index` leaves, of which
    /// `done` bytes are written; nothing where all are.
    pub fn piece(&self, index: usize, done: usize) -> (r: Option<&[u8]>)
        requires
            self@.wf(),
            index < self.entries@.len(),
        ensures
            r is Some <==> done < self@.contents(index as int).len(),
            r matches Some(bytes) ==> bytes@ == self@.piece(index as int, done as int),
    {
        assert(self.stream@.len() == self.stream.len());
        assert(self@.entries[index as int] == self.entries@[index as int]@);
        match self.entries[index].body {
            PlacedBody::Directory => None,
            PlacedBody::File { offset, size } => {
                if done >= size {
                    return None;
                }
                assert(offset + size <= self.stream.len());
                let count: usize = if size - done <= IO_CHUNK_SIZE {
                    size - done
                } else {
                    IO_CHUNK_SIZE
                };
                let bytes = slice_subrange(
                    self.stream.as_slice(),
                    offset + done,
                    offset + done + count,
                );
                assert(bytes@ =~= self@.piece(index as int, done as int));
                Some(bytes)
            },
        }
    }
}

/// Where the data of the last member end, rounded up to whole blocks.
pub open spec fn members_end(headers: Seq<TarHeaderView>) -> int {
    if headers.len() == 0 {
        0
    } else {
        let last = headers.last();
        last.offset + (last.size + TAR_BLOCK - 1) / TAR_BLOCK as int * TAR_BLOCK
    }
}

/// Whether the tar stream `data` goes on for a block behind its members, which is
/// then the block that marks the end of the archive.
pub open spec fn has_end_mark(data: Seq<u8>, headers: Seq<TarHeaderView>) -> bool {
    members_end(headers) + TAR_BLOCK <= data.len()
}

/// What an archive leaves in the output, given the stream `data` it was decoded to
/// and the members listed there, each with the error that stands behind them. A
/// decoder that fails behind the end of the tar stream does no harm; one that fails
/// within it does.
pub open spec fn extraction(
    data: Seq<u8>,
    decode_error: Option<std::io::Error>,
    headers: Seq<TarHeaderView>,
    list_error: Option<std::io::Error>,
) -> Result<ExtractionView, ExtractError> {
    match all_placed(data, headers) {
        Err(refusal) => match decode_error {
            Some(error) => if refusal == Refusal::Truncated {
                Err(ExtractError::Decode(error))
            } else {
                Err(ExtractError::Refused(refusal))
            },
            None => Err(ExtractError::Refused(refusal)),
        },
        Ok(entries) => if decode_error is Some && (list_error is Some || !has_end_mark(
            data,
            headers,
        )) {
            Err(ExtractError::Decode(decode_error.unwrap()))
        } else {
            match list_error {
                Some(error) => Err(ExtractError::Archive(error)),
                None => Ok(ExtractionView { stream: data, entries }),
            }
        },
    }
}

/// Whether `outcome` can come of the stream `data`, behind which decoding ended with
/// `decode_error`.
pub open spec fn comes_of(
    data: Seq<u8>,
    decode_error: Option<std::io::Error>,
    outcome: Result<ExtractionView, ExtractError>,
) -> bool {
    let (headers, fails) = tar_listing(calmed(data));
    exists|list_error: Option<std::io::Error>|
        list_error is Some == fails && outcome == #[trigger] extraction(
            data,
            decode_error,
            headers,
            list_error,
        )
}

/// Whether `outcome` can come of an archive: all of it is fixed but for what the
/// readers' own errors hold.
pub open spec fn extracts_to(
    compression: Compression,
    archive: Seq<u8>,
    outcome: Result<ExtractionView, ExtractError>,
) -> bool {
    exists|decode_error: Option<std::io::Error>|
        (decode_error is Some) == decoded(compression, archive).1 && #[trigger] comes_of(
            decoded(compression, archive).0,
            decode_error,
            outcome,
        )
}

/// What was extracted, by value, or why nothing was.
pub open spec fn extract_value(
    r: Result<Extraction, ExtractError>,
) -> Result<ExtractionView, ExtractError> {
    match r {
        Ok(extraction) => Ok(extraction@),
        Err(error) => Err(error),
    }
}

/// Whether the stream goes on for a block behind its members.
fn find_end_mark(data: &[u8], headers: &[TarHeader]) -> (r: bool)
    ensures
        r == has_end_mark(data@, header_values(headers@)),
{
    let block: u128 = TAR_BLOCK as u128;
    let mut end: u128 = 0;
    if headers.len() > 0 {
        let last: &TarHeader = &headers[headers.len() - 1];
        assert(header_values(headers@).last() == last@);
        let blocks: u128 = (last.size as u128 + block - 1) / block;
        end = last.offset as u128 + blocks * block;
    }
    end + block <= data.len() as u128
}

/// The file of each member that is placed is a part of the stream.
proof fn lemma_files_in_stream(data: Seq<u8>, headers: Seq<TarHeaderView>, count: nat, k: int)
    requires
        count <= headers.len(),
        data.len() <= usize::MAX,
        placed_upto(data, headers, count) is Ok,
        0 <= k < placed_upto(data, headers, count)->Ok_0.len(),
    ensures
        placed_upto(data, headers, count)->Ok_0[k].body matches PlacedBody::File { offset, size }
            ==> offset + size <= data.len(),
    decreases count,
{
    let before = placed_upto(data, headers, (count - 1) as nat)->Ok_0;
    if k < before.len() {
        lemma_files_in_stream(data, headers, (count - 1) as nat, k);
    }
}

/// What an archive leaves in the output, given the stream it was decoded to and the
/// members listed there, each with the error that stands behind them.
pub fn finish_extraction(
    stream: Vec<u8>,
    decode_error: Option<std::io::Error>,
    headers: &[TarHeader],
    list_error: Option<std::io::Error>,
) -> (r: Result<Extraction, ExtractError>)
    ensures
        extract_value(r) == extraction(
            stream@,
            decode_error,
            header_values(headers@),
            list_error,
        ),
        r matches Ok(extraction) ==> extraction@.wf(),
{
    let ghost values = header_values(headers@);
    assert(stream@.len() == stream.len());
    match place_entries(stream.as_slice(), headers) {
        Err(refusal) => match (refusal, decode_error) {
            (Refusal::Truncated, Some(error)) => Err(ExtractError::Decode(error)),
            _ => Err(ExtractError::Refused(refusal)),
        },
        Ok(entries) => {
            if let Some(error) = decode_error {
                if list_error.is_some() || !find_end_mark(stream.as_slice(), headers) {
                    return Err(ExtractError::Decode(error));
                }
            }
            match list_error {
                Some(error) => Err(ExtractError::Archive(error)),
                None => {
                    proof {
                        let placed = placed_values(entries@);
                        assert forall|i: int| 0 <= i < placed.len() implies (
                        #[trigger] placed[i].body matches PlacedBody::File { offset, size }
                            ==> offset + size <= stream@.len()) by {
                            lemma_files_in_stream(stream@, values, values.len(), i);
                        }
                    }
                    Ok(Extraction { stream, entries })
                },
            }
        },
    }
}

/// What an archive leaves in the output: its files and directories, each under its
/// path without the archive's top level, in the order of the archive.
pub fn extract(compression: Compression, archive: Vec<u8>) -> (r: Result<
    Extraction,
    ExtractError,
>)
    ensures
        extracts_to(compression, archive@, extract_value(r)),
        r matches Ok(extraction) ==> extraction@.wf(),
{
    let (stream, decode_error) = decode(compression, archive);
    let ghost data = stream@;
    let ghost decode_fault = decode_error;
    let (headers, list_error) = list_members(stream.as_slice());
    let ghost list_fault = list_error;
    let r = finish_extraction(stream, decode_error, headers.as_slice(), list_error);
    proof {
        let members = header_values(headers@);
        assert(extract_value(r) == extraction(data, decode_fault, members, list_fault));
        assert(decoded(compression, archive@) == (data, decode_fault is Some));
        assert(comes_of(decoded(compression, archive@).0, decode_fault, extract_value(r)));
    }
    r
}

/// The same can come of two archives that decode to the same stream, however each is
/// compressed, and where one of them can be unpacked, nothing else can come of the
/// other.
pub proof fn compression_does_not_matter(
    one: Compression,
    first: Seq<u8>,
    other: Compression,
    second: Seq<u8>,
    outcome: Result<ExtractionView, ExtractError>,
    result: Result<ExtractionView, ExtractError>,
)
    requires
        decoded(one, first) == decoded(other, second),
    ensures
        extracts_to(one, first, outcome) <==> extracts_to(other, second, outcome),
        extracts_to(one, first, outcome) && outcome is Ok && extracts_to(other, second, result)
            ==> result == outcome,
{
}

/// A decoder that fails before the end of the tar stream keeps the archive from being
/// unpacked; one that fails behind it changes nothing.
pub proof fn damage_counts_within_the_stream_only(
    data: Seq<u8>,
    decode_error: std::io::Error,
    headers: Seq<TarHeaderView>,
    list_error: Option<std::io::Error>,
)
    ensures
        extraction(data, Some(decode_error), headers, list_error) is Ok <==> extraction(
            data,
            None,
            headers,
            list_error,
        ) is Ok && has_end_mark(data, headers),
        extraction(data, Some(decode_error), headers, list_error) is Ok ==> extraction(
            data,
            Some(decode_error),
            headers,
            list_error,
        ) == extraction(data, None, headers, list_error),
{
}

/// A corrupt archive whose decoder fails before the block that ends the tar stream is
/// never unpacked.
pub proof fn corrupt_archives_are_not_unpacked(
    compression: Compression,
    archive: Seq<u8>,
    outcome: Result<ExtractionView, ExtractError>,
)
    ensures
        ({
            let (data, fails) = decoded(compression, archive);
            fails && !has_end_mark(data, tar_listing(calmed(data)).0) && extracts_to(
                compression,
                archive,
                outcome,
            ) ==> outcome is Err
        }),
{
}

/// The pieces of a file from `done` on, one behind the other.
pub open spec fn pieces_from(extraction: ExtractionView, index: int, done: int) -> Seq<u8>
    decreases extraction.contents(index).len() - done,
{
    if 0 <= done < extraction.contents(index).len() {
        let piece = extraction.piece(index, done);
        piece + pieces_from(extraction, index, done + piece.len())
    } else {
        seq![]
    }
}

/// The pieces of a file make up its contents, and none is larger than a chunk.
pub proof fn pieces_make_up_the_file(extraction: ExtractionView, index: int, done: int)
    requires
        extraction.wf(),
        0 <= index < extraction.entries.len(),
        0 <= done <= extraction.contents(index).len(),
    ensures
        pieces_from(extraction, index, done) == extraction.contents(index).skip(done),
        done < extraction.contents(index).len() ==> 0 < extraction.piece(index, done).len()
            <= IO_CHUNK_SIZE,
    decreases extraction.contents(index).len() - done,
{
    let contents = extraction.contents(index);
    if done < contents.len() {
        let piece = extraction.piece(index, done);
        pieces_make_up_the_file(extraction, index, done + piece.len());
        assert(piece + contents.skip(done + piece.len()) =~= contents.skip(done));
    } else {
        assert(contents.skip(done) =~= seq![]);
    }
}

/// Whether a place lies below the output directory, whatever stands there: it is
/// made of names alone, and none of them leads upwards.
pub open spec fn lies_inside(place: Seq<Seq<u8>>) -> bool {
    &&& place.len() > 0
    &&& forall|i: int|
        0 <= i < place.len() ==> is_name(#[trigger] place[i]) && place[i] != parent_component()
}

proof fn lemma_placed_inside(data: Seq<u8>, headers: Seq<TarHeaderView>, count: nat, k: int)
    requires
        count <= headers.len(),
        placed_upto(data, headers, count) is Ok,
        0 <= k < placed_upto(data, headers, count)->Ok_0.len(),
    ensures
        lies_inside(placed_upto(data, headers, count)->Ok_0[k].place),
    decreases count,
{
    let before = placed_upto(data, headers, (count - 1) as nat)->Ok_0;
    if k < before.len() {
        lemma_placed_inside(data, headers, (count - 1) as nat, k);
    } else {
        let header = headers[count - 1];
        let parts = components(header.path);
        let place = parts.drop_first();
        assert forall|i: int| 0 <= i < place.len() implies is_name(#[trigger] place[i]) && place[i]
            != parent_component() by {
            components_behind_first_are_names(header.path, i + 1);
            assert(place[i] == parts[i + 1]);
        }
    }
}

/// Whatever an archive holds, nothing of it is placed outside the output directory.
pub proof fn nothing_lands_outside(
    data: Seq<u8>,
    decode_error: Option<std::io::Error>,
    headers: Seq<TarHeaderView>,
    list_error: Option<std::io::Error>,
    k: int,
)
    requires
        extraction(data, decode_error, headers, list_error) is Ok,
        0 <= k < extraction(data, decode_error, headers, list_error)->Ok_0.entries.len(),
    ensures
        lies_inside(extraction(data, decode_error, headers, list_error)->Ok_0.entries[k].place),
{
    lemma_placed_inside(data, headers, headers.len(), k);
}

proof fn lemma_spoiled(data: Seq<u8>, headers: Seq<TarHeaderView>, count: nat, i: int)
    requires
        0 <= i < count <= headers.len(),
        placed(data, headers[i]) is Err,
    ensures
        placed_upto(data, headers, count) is Err,
    decreases count,
{
    if i < count - 1 {
        lemma_spoiled(data, headers, (count - 1) as nat, i);
    }
}

/// A link, a device or any other member that is neither file nor directory spoils
/// the archive, and so does a path that is absolute or leads upwards.
pub proof fn links_and_upward_paths_are_refused(
    data: Seq<u8>,
    decode_error: Option<std::io::Error>,
    headers: Seq<TarHeaderView>,
    list_error: Option<std::io::Error>,
    i: int,
)
    requires
        0 <= i < headers.len(),
        (headers[i].kind != KIND_FILE && headers[i].kind != KIND_DIRECTORY) || !supported_path(
            headers[i].path,
        ),
    ensures
        extraction(data, decode_error, headers, list_error) is Err,
{
    lemma_spoiled(data, headers, headers.len(), i);
}

/// No member is given the right to write for anyone but its owner, nor any right
/// that the owner has not.
pub proof fn only_the_owner_may_write(mode: u32)
    ensures
        normalized_mode(mode) < 512,
        normalized_mode(mode) / 64 == mode / 64 % 8,
        normalized_mode(mode) / 16 % 2 == 0,
        normalized_mode(mode) / 2 % 2 == 0,
        normalized_mode(normalized_mode(mode)) == normalized_mode(mode),
{
}

} // verus!
