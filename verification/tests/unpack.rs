use std::collections::BTreeMap;
use std::io::{self, Cursor, Read};

use rustup::archive::{
    decode, extract, finish_extraction, place_entries, place_entry, Compression, ExtractError,
    Extraction, PlacedBody, PlacedEntry, Refusal, TarHeader,
};
use rustup::unpack::{
    effective_thread_count, unpack, unpack_result, Backend, ExecutorChoice, IoThreadCount,
    ProducerAction, ProducerEvent, UnpackError, IO_CHUNK_SIZE,
};

struct Pattern {
    position: u64,
    size: u64,
}

impl Read for Pattern {
    fn read(&mut self, buffer: &mut [u8]) -> io::Result<usize> {
        let within_chunk = self.position as usize % IO_CHUNK_SIZE;
        let count = buffer
            .len()
            .min((self.size - self.position) as usize)
            .min(IO_CHUNK_SIZE - within_chunk);
        buffer[..count].fill(91 + (self.position / IO_CHUNK_SIZE as u64) as u8);
        self.position += count as u64;
        Ok(count)
    }
}

fn append(builder: &mut tar::Builder<Vec<u8>>, path: &str, size: u64, mode: u32) {
    let mut header = tar::Header::new_gnu();
    header.set_size(size);
    header.set_mode(mode);
    header.set_cksum();
    builder
        .append_data(&mut header, path, Pattern { position: 0, size })
        .unwrap();
}

fn fixture() -> Vec<u8> {
    let mut tar = tar::Builder::new(Vec::new());
    // Missing parents and a file before its explicit directory entry.
    append(&mut tar, "pkg/a/b/tool", 100, 0o700);
    let mut directory = tar::Header::new_gnu();
    directory.set_entry_type(tar::EntryType::Directory);
    directory.set_size(0);
    directory.set_mode(0o755);
    directory.set_cksum();
    tar.append_data(&mut directory, "pkg/a/b", io::empty())
        .unwrap();
    append(&mut tar, "pkg/empty", 0, 0o600);
    append(
        &mut tar,
        "pkg/large",
        (IO_CHUNK_SIZE * 2 + 17) as u64,
        0o600,
    );
    tar.into_inner().unwrap()
}

fn compressed(compression: Compression, bytes: &[u8]) -> Vec<u8> {
    match compression {
        Compression::Uncompressed => bytes.to_vec(),
        Compression::Gzip => {
            let mut encoder =
                flate2::read::GzEncoder::new(Cursor::new(bytes), flate2::Compression::fast());
            let mut out = Vec::new();
            encoder.read_to_end(&mut out).unwrap();
            out
        }
        Compression::Xz => {
            let mut encoder = xz2::read::XzEncoder::new(Cursor::new(bytes), 0);
            let mut out = Vec::new();
            encoder.read_to_end(&mut out).unwrap();
            out
        }
        Compression::Zstd => zstd::stream::encode_all(Cursor::new(bytes), 1).unwrap(),
    }
}

/// A directory in memory: `None` is a directory, `Some` a file with its mode.
type Tree = BTreeMap<String, Option<(Vec<u8>, Option<u32>)>>;

/// The contents of a file, put together from its pieces.
fn contents(extraction: &Extraction, index: usize) -> Vec<u8> {
    let mut bytes = Vec::new();
    while let Some(piece) = extraction.piece(index, bytes.len()) {
        assert!(!piece.is_empty() && piece.len() <= IO_CHUNK_SIZE);
        bytes.extend_from_slice(piece);
    }
    bytes
}

fn write_tree(extraction: &Extraction) -> Result<Tree, ()> {
    let mut tree: Tree = BTreeMap::new();
    for (index, entry) in extraction.entries.iter().enumerate() {
        let names: Vec<String> = entry
            .place
            .iter()
            .map(|name| String::from_utf8(name.clone()).unwrap())
            .collect();
        for depth in 1..names.len() {
            let parent = names[..depth].join("/");
            if let Some(Some(_)) = tree.get(&parent) {
                return Err(());
            }
            tree.entry(parent).or_insert(None);
        }
        match entry.body {
            PlacedBody::Directory => {
                tree.entry(names.join("/")).or_insert(None);
            }
            PlacedBody::File { .. } => {
                let bytes = contents(extraction, index);
                tree.insert(names.join("/"), Some((bytes, entry.mode)));
            }
        }
    }
    Ok(tree)
}

struct Outcome {
    result: Result<Tree, UnpackError>,
    /// Whether an output was there, and whether it was when the reply was sent.
    created: bool,
    held_at_reply: bool,
    held_at_end: bool,
}

/// Runs a producer over an archive in memory.
fn run(
    archive: &[u8],
    compression: Compression,
    backend: Backend,
    threads: IoThreadCount,
    ram_budget: usize,
    caller_waits: bool,
) -> Outcome {
    let mut producer = match unpack(compression, backend, threads, ram_budget) {
        Ok(producer) => producer,
        Err(error) => {
            return Outcome {
                result: Err(error),
                created: false,
                held_at_reply: false,
                held_at_end: false,
            }
        }
    };
    let mut output: Option<Tree> = None;
    let mut created = false;
    let mut held_at_reply = false;
    let mut delivered: Option<Tree> = None;
    let mut reply: Option<Result<(), UnpackError>> = None;
    let mut event = ProducerEvent::Begin;
    loop {
        event = match producer.step(event) {
            ProducerAction::CreateOutput => {
                output = Some(BTreeMap::new());
                created = true;
                ProducerEvent::OutputCreated
            }
            ProducerAction::ReadArchive => producer.extract(archive.to_vec()),
            ProducerAction::Write { extraction, .. } => match write_tree(&extraction) {
                Ok(tree) => {
                    output = Some(tree);
                    ProducerEvent::Written
                }
                Err(()) => ProducerEvent::Failed,
            },
            ProducerAction::DiscardOutput => {
                output = None;
                ProducerEvent::Discarded
            }
            ProducerAction::Reply { result } => {
                held_at_reply = output.is_some();
                if caller_waits {
                    delivered = output.take();
                    reply = Some(result);
                    ProducerEvent::Delivered
                } else {
                    ProducerEvent::CallerGone
                }
            }
            ProducerAction::End => break,
        };
    }
    Outcome {
        result: unpack_result(true, reply).map(|()| delivered.unwrap()),
        created,
        held_at_reply,
        held_at_end: output.is_some(),
    }
}

fn run_small(archive: &[u8], backend: Backend) -> Outcome {
    run(
        archive,
        Compression::Uncompressed,
        backend,
        IoThreadCount::UserSpecified(2),
        32 * 1024 * 1024,
        true,
    )
}

#[test]
fn round_trip_and_compressions() {
    let bytes = fixture();
    for compression in [
        Compression::Uncompressed,
        Compression::Gzip,
        Compression::Xz,
        Compression::Zstd,
    ] {
        let archive = compressed(compression, &bytes);
        for backend in [Backend::Threaded, Backend::Tokio] {
            let outcome = run(
                &archive,
                compression,
                backend,
                IoThreadCount::UserSpecified(2),
                32 * 1024 * 1024,
                true,
            );
            let output = outcome.result.unwrap();
            let (tool, mode) = output["a/b/tool"].as_ref().unwrap();
            assert_eq!(*tool, vec![91; 100]);
            assert_eq!(*mode, Some(0o755));
            let (empty, _) = output["empty"].as_ref().unwrap();
            assert_eq!(empty.len(), 0);
            let (large, _) = output["large"].as_ref().unwrap();
            assert_eq!(large.len(), IO_CHUNK_SIZE * 2 + 17);
            for (chunk, part) in large.chunks(IO_CHUNK_SIZE).enumerate() {
                assert!(part.iter().all(|b| *b == 91 + chunk as u8));
            }
            assert!(!outcome.held_at_end);
        }
    }
}

#[test]
fn truncated_large_file_drains_and_cleans_up() {
    let mut tar = tar::Builder::new(Vec::new());
    append(&mut tar, "pkg/large", (IO_CHUNK_SIZE * 2) as u64, 0o644);
    let mut bytes = tar.into_inner().unwrap();
    bytes.truncate(IO_CHUNK_SIZE + 1024);
    for backend in [Backend::Threaded, Backend::Tokio] {
        let outcome = run_small(&bytes, backend);
        assert!(matches!(
            outcome.result,
            Err(UnpackError::Extraction(ExtractError::Refused(Refusal::Truncated)))
        ));
        assert!(outcome.created && !outcome.held_at_reply && !outcome.held_at_end);
    }
}

#[test]
fn rejects_links_and_parent_traversal() {
    for link in [true, false] {
        let mut tar = tar::Builder::new(Vec::new());
        let mut header = tar::Header::new_gnu();
        header.set_size(0);
        header.set_mode(0o644);
        if link {
            header.set_entry_type(tar::EntryType::Symlink);
            header.set_link_name("outside").unwrap();
            header.set_path("pkg/link").unwrap();
        } else {
            // Bypass tar's safe path setter to construct a hostile archive.
            header.as_mut_bytes()[..14].copy_from_slice(b"pkg/../outside");
        }
        header.set_cksum();
        tar.append(&header, io::empty()).unwrap();
        let archive = tar.into_inner().unwrap();
        for backend in [Backend::Threaded, Backend::Tokio] {
            let outcome = run_small(&archive, backend);
            let refusal = match outcome.result {
                Err(UnpackError::Extraction(ExtractError::Refused(refusal))) => refusal,
                _ => panic!("the archive was accepted"),
            };
            let expected = if link {
                Refusal::UnsupportedKind
            } else {
                Refusal::UnsupportedPath
            };
            assert_eq!(refusal, expected);
            assert!(outcome.created && !outcome.held_at_reply && !outcome.held_at_end);
        }
    }
}

#[test]
fn filesystem_error_drains_and_cleans_up() {
    let mut tar = tar::Builder::new(Vec::new());
    append(&mut tar, "pkg/occupied", 1, 0o644);
    append(&mut tar, "pkg/occupied/child", 1, 0o644);
    let archive = tar.into_inner().unwrap();
    for backend in [Backend::Threaded, Backend::Tokio] {
        let outcome = run_small(&archive, backend);
        assert!(matches!(outcome.result, Err(UnpackError::WriteFailed)));
        assert!(outcome.created && !outcome.held_at_reply && !outcome.held_at_end);
    }
}

#[test]
fn cancelled_caller_keeps_output_owned_until_drain() {
    let outcome = run(
        &fixture(),
        Compression::Uncompressed,
        Backend::Tokio,
        IoThreadCount::UserSpecified(2),
        32 * 1024 * 1024,
        false,
    );
    // All was written before anyone learnt that the caller was gone; then the
    // output went.
    assert!(outcome.created && outcome.held_at_reply && !outcome.held_at_end);
    assert!(matches!(outcome.result, Err(UnpackError::ProducerLost)));
}

#[test]
fn broken_compression_is_an_error() {
    let mut tar = tar::Builder::new(Vec::new());
    append(&mut tar, "pkg/file", 3000, 0o644);
    let bytes = tar.into_inner().unwrap();
    for compression in [Compression::Gzip, Compression::Xz, Compression::Zstd] {
        let mut archive = compressed(compression, &bytes);
        let half = archive.len() / 2;
        archive.truncate(half);
        assert!(matches!(
            extract(compression, archive),
            Err(ExtractError::Decode(_))
        ));
        // Plain tar bytes are no compressed stream.
        assert!(matches!(
            extract(compression, bytes.clone()),
            Err(ExtractError::Decode(_))
        ));
    }
}

#[test]
fn decoding_gives_back_what_was_compressed() {
    let bytes: Vec<u8> = (0..5000u32).map(|i| (i % 251) as u8).collect();
    for compression in [
        Compression::Uncompressed,
        Compression::Gzip,
        Compression::Xz,
        Compression::Zstd,
    ] {
        let archive = compressed(compression, &bytes);
        if compression != Compression::Uncompressed {
            assert_ne!(archive, bytes);
        }
        let (data, error) = decode(compression, archive);
        assert_eq!(data, bytes);
        assert!(error.is_none());
    }
}

#[test]
fn damage_behind_the_tar_stream_does_no_harm() {
    let mut tar = tar::Builder::new(Vec::new());
    append(&mut tar, "pkg/file", 3000, 0o644);
    let bytes = tar.into_inner().unwrap();
    for compression in [Compression::Gzip, Compression::Xz, Compression::Zstd] {
        let mut archive = compressed(compression, &bytes);
        match compression {
            // The checksum at the end of the stream.
            Compression::Gzip => {
                let at = archive.len() - 8;
                archive[at] ^= 255;
            }
            // The check behind the block, in front of index and footer.
            Compression::Xz => {
                let at = archive.len() - 12 - 8 - 1;
                archive[at] ^= 1;
            }
            // Something behind the frame that begins no other.
            _ => archive.extend_from_slice(b"garbage behind the frame"),
        }
        let (_, error) = decode(compression, archive.clone());
        assert!(error.is_some());
        let extraction = extract(compression, archive).unwrap();
        assert_eq!(extraction.entries.len(), 1);
        assert_eq!(contents(&extraction, 0), vec![91; 3000]);
    }
}

fn sparse_member(size: u64) -> Vec<u8> {
    let mut header = tar::Header::new_gnu();
    header.set_path("pkg/sparse").unwrap();
    header.set_mode(0o644);
    header.set_size(size);
    header.set_entry_type(tar::EntryType::GNUSparse);
    header.as_mut_bytes()[482] = 1;
    header.set_cksum();
    let mut archive = header.as_bytes().to_vec();
    archive.extend_from_slice(&[0; 512]);
    archive
}

/// A member in front of another that gives the other's size.
fn size_record() -> Vec<u8> {
    let record = b"29 size=18446744073709550592\n";
    let mut header = tar::Header::new_ustar();
    header.set_path("pkg/record").unwrap();
    header.set_size(record.len() as u64);
    header.set_entry_type(tar::EntryType::XHeader);
    header.set_cksum();
    let mut archive = header.as_bytes().to_vec();
    archive.extend_from_slice(record);
    archive.resize(1024, 0);
    archive
}

#[test]
fn sparse_members_are_refused_whatever_their_size() {
    for size in [0, 5, 512, u64::MAX - 1023] {
        assert!(matches!(
            extract(Compression::Uncompressed, sparse_member(size)),
            Err(ExtractError::Refused(Refusal::UnsupportedKind))
        ));
    }
    // Where a record gives the size, the listing finds it too large.
    let mut archive = size_record();
    archive.extend_from_slice(&sparse_member(0));
    assert!(matches!(
        extract(Compression::Uncompressed, archive),
        Err(ExtractError::Archive(_))
    ));
}

#[test]
fn files_may_look_like_sparse_members() {
    let mut recorded = size_record();
    recorded.extend_from_slice(&sparse_member(0));
    for inner in [sparse_member(5), sparse_member(u64::MAX - 1023), recorded] {
        let mut tar = tar::Builder::new(Vec::new());
        for name in ["pkg/inner.tar", "pkg/again.tar"] {
            let mut header = tar::Header::new_gnu();
            header.set_size(inner.len() as u64);
            header.set_mode(0o644);
            header.set_cksum();
            tar.append_data(&mut header, name, &inner[..]).unwrap();
        }
        let archive = tar.into_inner().unwrap();
        let extraction = extract(Compression::Uncompressed, archive).unwrap();
        assert_eq!(extraction.entries.len(), 2);
        assert_eq!(contents(&extraction, 0), inner);
        assert_eq!(contents(&extraction, 1), inner);
    }
}

#[test]
fn broken_tar_stream_is_an_error() {
    let archive = vec![7u8; 600];
    assert!(matches!(
        extract(Compression::Uncompressed, archive),
        Err(ExtractError::Archive(_))
    ));
    let nothing = extract(Compression::Uncompressed, vec![]).unwrap();
    assert_eq!(nothing.entries, Vec::<PlacedEntry>::new());
}

fn header(path: &[u8], kind: u8, offset: u64, size: u64) -> TarHeader {
    TarHeader {
        path: path.to_vec(),
        kind,
        mode: Some(0o600),
        offset,
        size,
    }
}

#[test]
fn members_are_placed_below_the_top_level() {
    let data = b"0123456789";
    let placed = place_entry(data, &header(b"pkg/./a//b", b'0', 2, 3))
        .unwrap()
        .unwrap();
    assert_eq!(placed.place, vec![b"a".to_vec(), b"b".to_vec()]);
    assert_eq!(placed.body, PlacedBody::File { offset: 2, size: 3 });
    assert_eq!(placed.mode, Some(0o644));
    let directory = place_entry(data, &header(b"./pkg/", b'5', 0, 0))
        .unwrap()
        .unwrap();
    assert_eq!(directory.place, vec![b"pkg".to_vec()]);
    assert_eq!(directory.body, PlacedBody::Directory);
    // The top level itself is the output, which is there.
    assert_eq!(place_entry(data, &header(b"pkg/", b'5', 0, 0)), Ok(None));
    assert_eq!(
        place_entry(data, &header(b"/pkg/a", b'0', 0, 0)),
        Err(Refusal::UnsupportedPath)
    );
    assert_eq!(
        place_entry(data, &header(b"pkg/a/..", b'0', 0, 0)),
        Err(Refusal::UnsupportedPath)
    );
    assert_eq!(
        place_entry(data, &header(b"pkg/a", b'1', 0, 0)),
        Err(Refusal::UnsupportedKind)
    );
    assert_eq!(
        place_entry(data, &header(b"pkg/a", b'0', 8, 3)),
        Err(Refusal::Truncated)
    );
    assert_eq!(
        place_entry(data, &header(b"pkg/a", b'0', u64::MAX, u64::MAX)),
        Err(Refusal::Truncated)
    );
}

#[test]
fn permissions_follow_the_owner() {
    for (given, expected) in [
        (0o700, 0o755),
        (0o600, 0o644),
        (0o4777, 0o755),
        (0o077, 0o000),
        (0o500, 0o555),
        (0o200, 0o200),
    ] {
        let mut member = header(b"pkg/a", b'5', 0, 0);
        member.mode = Some(given);
        let placed = place_entry(&[], &member).unwrap().unwrap();
        assert_eq!(placed.mode, Some(expected));
    }
    let mut member = header(b"pkg/a", b'5', 0, 0);
    member.mode = None;
    assert_eq!(place_entry(&[], &member).unwrap().unwrap().mode, None);
}

#[test]
fn first_spoiling_member_decides() {
    let members = vec![
        header(b"pkg/a", b'5', 0, 0),
        header(b"pkg/b", b'2', 0, 0),
        header(b"../b", b'5', 0, 0),
    ];
    assert_eq!(
        place_entries(&[], &members),
        Err(Refusal::UnsupportedKind)
    );
    assert_eq!(place_entries(&[], &members[..1]).unwrap().len(), 1);
}

#[test]
fn failing_decoder_counts_within_the_stream_only() {
    let fail = || Some(io::Error::new(io::ErrorKind::Other, "broken"));
    let data = vec![0u8; 1536];
    let members = vec![header(b"pkg/a", b'0', 512, 1)];
    assert!(finish_extraction(data.clone(), fail(), &members, None).is_ok());
    assert!(matches!(
        finish_extraction(data[..1535].to_vec(), fail(), &members, None),
        Err(ExtractError::Decode(_))
    ));
    assert!(finish_extraction(data[..1535].to_vec(), None, &members, None).is_ok());
    assert!(matches!(
        finish_extraction(data.clone(), fail(), &members, fail()),
        Err(ExtractError::Decode(_))
    ));
    assert!(matches!(
        finish_extraction(data.clone(), None, &members, fail()),
        Err(ExtractError::Archive(_))
    ));
    assert!(matches!(
        finish_extraction(data[..512].to_vec(), fail(), &members, None),
        Err(ExtractError::Decode(_))
    ));
    assert!(matches!(
        finish_extraction(data[..512].to_vec(), None, &members, None),
        Err(ExtractError::Refused(Refusal::Truncated))
    ));
}

fn nothing() -> Extraction {
    Extraction {
        stream: vec![],
        entries: vec![],
    }
}

fn executor_of(backend: Backend, threads: IoThreadCount, ram_budget: usize) -> ExecutorChoice {
    let mut producer = unpack(Compression::Uncompressed, backend, threads, ram_budget).unwrap();
    assert!(matches!(
        producer.step(ProducerEvent::Begin),
        ProducerAction::CreateOutput
    ));
    assert!(matches!(
        producer.step(ProducerEvent::OutputCreated),
        ProducerAction::ReadArchive
    ));
    match producer.step(ProducerEvent::Extracted { result: Ok(nothing()) }) {
        ProducerAction::Write { executor, .. } => executor,
        _ => panic!("nothing is written"),
    }
}

#[test]
fn executor_follows_backend_and_thread_count() {
    let ram_budget = 64 * 1024 * 1024;
    let threads = 4;
    assert_eq!(
        executor_of(Backend::Tokio, IoThreadCount::UserSpecified(4), ram_budget),
        ExecutorChoice::Tokio { threads, ram_budget }
    );
    assert_eq!(
        executor_of(Backend::Threaded, IoThreadCount::UserSpecified(4), ram_budget),
        ExecutorChoice::Threaded { threads, ram_budget }
    );
    assert_eq!(
        executor_of(Backend::Tokio, IoThreadCount::UserSpecified(1), ram_budget),
        ExecutorChoice::Immediate
    );
    // Memory is low, and nobody insists on four threads.
    assert_eq!(
        executor_of(Backend::Tokio, IoThreadCount::Default(4), ram_budget),
        ExecutorChoice::Immediate
    );
    let ram_budget = 512 * 1024 * 1024;
    assert_eq!(
        executor_of(Backend::Tokio, IoThreadCount::Default(4), ram_budget),
        ExecutorChoice::Tokio { threads, ram_budget }
    );
}

#[test]
fn low_memory_falls_back_unless_overridden() {
    let low = 512 * 1024 * 1024 - 1;
    assert_eq!(effective_thread_count(low, IoThreadCount::Default(8)), 1);
    assert_eq!(effective_thread_count(low + 1, IoThreadCount::Default(8)), 8);
    assert_eq!(effective_thread_count(low, IoThreadCount::UserSpecified(8)), 8);
}

#[test]
fn requests_that_cannot_be_met_are_rejected() {
    let enough = 32 * 1024 * 1024;
    assert!(matches!(
        unpack(
            Compression::Xz,
            Backend::Tokio,
            IoThreadCount::UserSpecified(0),
            enough - 1
        ),
        Err(UnpackError::NoThreads)
    ));
    assert!(matches!(
        unpack(
            Compression::Xz,
            Backend::Tokio,
            IoThreadCount::UserSpecified(2),
            enough - 1
        ),
        Err(UnpackError::RamBudgetTooSmall)
    ));
    assert!(unpack(
        Compression::Xz,
        Backend::Tokio,
        IoThreadCount::UserSpecified(2),
        enough
    )
    .is_ok());
}

#[test]
fn caller_learns_of_a_lost_producer() {
    assert!(matches!(
        unpack_result(false, None),
        Err(UnpackError::ProducerNotStarted)
    ));
    assert!(matches!(
        unpack_result(true, None),
        Err(UnpackError::ProducerLost)
    ));
    assert!(unpack_result(true, Some(Ok(()))).is_ok());
    assert!(matches!(
        unpack_result(true, Some(Err(UnpackError::WriteFailed))),
        Err(UnpackError::WriteFailed)
    ));
}

#[test]
fn every_failure_is_reported_after_the_output_is_gone() {
    let start = || {
        unpack(
            Compression::Uncompressed,
            Backend::Tokio,
            IoThreadCount::UserSpecified(2),
            32 * 1024 * 1024,
        )
        .unwrap()
    };
    let mut producer = start();
    producer.step(ProducerEvent::Begin);
    assert!(matches!(
        producer.step(ProducerEvent::Failed),
        ProducerAction::Reply { result: Err(UnpackError::OutputNotCreated) }
    ));
    assert!(matches!(
        producer.step(ProducerEvent::Delivered),
        ProducerAction::End
    ));
    let mut producer = start();
    producer.step(ProducerEvent::Begin);
    producer.step(ProducerEvent::OutputCreated);
    assert!(matches!(
        producer.step(ProducerEvent::Failed),
        ProducerAction::DiscardOutput
    ));
    assert!(matches!(
        producer.step(ProducerEvent::Discarded),
        ProducerAction::Reply { result: Err(UnpackError::ArchiveNotRead) }
    ));
    assert!(matches!(
        producer.step(ProducerEvent::CallerGone),
        ProducerAction::End
    ));
    let mut producer = start();
    producer.step(ProducerEvent::Begin);
    producer.step(ProducerEvent::OutputCreated);
    producer.step(ProducerEvent::Extracted { result: Ok(nothing()) });
    assert!(matches!(
        producer.step(ProducerEvent::Panicked),
        ProducerAction::DiscardOutput
    ));
    assert!(matches!(
        producer.step(ProducerEvent::Discarded),
        ProducerAction::Reply { result: Err(UnpackError::ProducerPanicked) }
    ));
}
