//! Unpacking an archive into an owned temporary directory.
//!
//! The caller asks and waits; a producer of its own creates the output, reads the
//! archive, has its members written and replies. The decisions of both stand here.
//! Nothing interrupts a write: a caller that leaves does not keep the producer from
//! draining its writes, after which it removes the output that nobody wants.

use vstd::prelude::*;

use crate::archive::{
    extract, extract_value, extracts_to, Compression, ExtractError, Extraction, ExtractionView,
};

verus! {

/// The size of the pieces in which large files are written.
pub const IO_CHUNK_SIZE: usize = 16777216;

/// The budget below which an automatic thread count falls back to one.
pub const LOW_MEMORY: usize = 536870912;

/// Who performs the disk operations.
#[derive(Debug, Clone, Copy, PartialEq, Eq, Structural)]
pub enum Backend {
    Threaded,
    Tokio,
}

/// How many threads perform disk operations, and who said so.
#[derive(Debug, Clone, Copy, PartialEq, Eq, Structural)]
pub enum IoThreadCount {
    Default(usize),
    UserSpecified(usize),
}

/// The executor of the disk operations.
#[derive(Debug, Clone, Copy, PartialEq, Eq, Structural)]
pub enum ExecutorChoice {
    /// Each operation is performed where it is asked for.
    Immediate,
    /// A pool of threads.
    Threaded { threads: usize, ram_budget: usize },
    /// A pool on the blocking threads of the runtime.
    Tokio { threads: usize, ram_budget: usize },
}

/// Why an archive was not unpacked.
#[derive(Debug)]
pub enum UnpackError {
    /// The thread count must be positive.
    NoThreads,
    /// The budget must hold two pieces of a large file.
    RamBudgetTooSmall,
    /// The producer could not be started.
    ProducerNotStarted,
    /// The producer stopped without a result.
    ProducerLost,
    /// The producer panicked.
    ProducerPanicked,
    /// The output directory could not be created.
    OutputNotCreated,
    /// The archive could not be read.
    ArchiveNotRead,
    /// The archive cannot be unpacked.
    Extraction(ExtractError),
    /// What the archive holds could not be written.
    WriteFailed,
}

/// How many threads are used: an automatic count falls back to one where memory is
/// low, a count that the user chose stands.
pub open spec fn effective_threads(ram_budget: usize, threads: IoThreadCount) -> usize {
    match threads {
        IoThreadCount::Default(count) => if ram_budget < LOW_MEMORY {
            1
        } else {
            count
        },
        IoThreadCount::UserSpecified(count) => count,
    }
}

/// How many threads are used.
pub fn effective_thread_count(ram_budget: usize, threads: IoThreadCount) -> (r: usize)
    ensures
        r == effective_threads(ram_budget, threads),
{
    match threads {
        IoThreadCount::Default(count) => if ram_budget < LOW_MEMORY {
            1
        } else {
            count
        },
        IoThreadCount::UserSpecified(count) => count,
    }
}

/// The executor for `count` threads.
pub open spec fn executor_for(backend: Backend, count: usize, ram_budget: usize) -> ExecutorChoice {
    if count <= 1 {
        ExecutorChoice::Immediate
    } else if backend == Backend::Tokio {
        ExecutorChoice::Tokio { threads: count, ram_budget }
    } else {
        ExecutorChoice::Threaded { threads: count, ram_budget }
    }
}

/// What a producer does.
#[derive(Debug)]
enum Stage {
    Created,
    CreatingOutput,
    ReadingArchive,
    Writing,
    Discarding { error: UnpackError },
    Replying { unpacked: bool },
    Leaving,
    Ended,
}

/// The producer of one unpacked archive.
#[derive(Debug)]
pub struct TarProducer {
    compression: Compression,
    executor: ExecutorChoice,
    stage: Stage,
}

/// What a producer does: it was not begun; it creates its output, reads the archive,
/// or has members written; it removes its output on account of a failure; it hands
/// over its reply; it removes its output because the caller is gone; or it has ended.
pub enum StageView {
    Created,
    CreatingOutput,
    ReadingArchive,
    Writing,
    Discarding { error: UnpackError },
    Replying { unpacked: bool },
    Leaving,
    Ended,
}

/// A producer: how its archive is compressed, who writes, and what it does.
pub struct ProducerView {
    pub compression: Compression,
    pub executor: ExecutorChoice,
    pub stage: StageView,
}

impl View for TarProducer {
    type V = ProducerView;

    closed spec fn view(&self) -> ProducerView {
        ProducerView {
            compression: self.compression,
            executor: self.executor,
            stage: match self.stage {
                Stage::Created => StageView::Created,
                Stage::CreatingOutput => StageView::CreatingOutput,
                Stage::ReadingArchive => StageView::ReadingArchive,
                Stage::Writing => StageView::Writing,
                Stage::Discarding { error } => StageView::Discarding { error },
                Stage::Replying { unpacked } => StageView::Replying { unpacked },
                Stage::Leaving => StageView::Leaving,
                Stage::Ended => StageView::Ended,
            },
        }
    }
}

/// What became of the last step of a producer. A step is reported once it is over:
/// of writes, only when none of them is under way any more.
#[derive(Debug)]
pub enum ProducerEvent {
    /// The producer runs.
    Begin,
    /// The output directory is there.
    OutputCreated,
    /// The archive was read, with what can be extracted from it.
    Extracted { result: Result<Extraction, ExtractError> },
    /// All is written.
    Written,
    /// The step failed.
    Failed,
    /// The step panicked.
    Panicked,
    /// The output directory is gone.
    Discarded,
    /// The caller has the reply, and the output with it.
    Delivered,
    /// The caller was gone before the reply came.
    CallerGone,
}

/// The next step of a producer.
#[derive(Debug)]
pub enum ProducerAction {
    /// Create the output directory.
    CreateOutput,
    /// Read the archive, and extract it.
    ReadArchive,
    /// Write the members into the output directory.
    Write { extraction: Extraction, executor: ExecutorChoice },
    /// Remove the output directory.
    DiscardOutput,
    /// Send the reply to the caller, with the output where there is one.
    Reply { result: Result<(), UnpackError> },
    /// Nothing is left to do.
    End,
}

/// A producer event, by value.
pub enum ProducerEventView {
    Begin,
    OutputCreated,
    Extracted { result: Result<ExtractionView, ExtractError> },
    Written,
    Failed,
    Panicked,
    Discarded,
    Delivered,
    CallerGone,
}

/// A producer action, by value.
pub enum ProducerActionView {
    CreateOutput,
    ReadArchive,
    Write { extraction: ExtractionView, executor: ExecutorChoice },
    DiscardOutput,
    Reply { result: Result<(), UnpackError> },
    End,
}

impl View for ProducerEvent {
    type V = ProducerEventView;

    open spec fn view(&self) -> ProducerEventView {
        match self {
            ProducerEvent::Begin => ProducerEventView::Begin,
            ProducerEvent::OutputCreated => ProducerEventView::OutputCreated,
            ProducerEvent::Extracted { result } => ProducerEventView::Extracted {
                result: extract_value(*result),
            },
            ProducerEvent::Written => ProducerEventView::Written,
            ProducerEvent::Failed => ProducerEventView::Failed,
            ProducerEvent::Panicked => ProducerEventView::Panicked,
            ProducerEvent::Discarded => ProducerEventView::Discarded,
            ProducerEvent::Delivered => ProducerEventView::Delivered,
            ProducerEvent::CallerGone => ProducerEventView::CallerGone,
        }
    }
}

impl View for ProducerAction {
    type V = ProducerActionView;

    open spec fn view(&self) -> ProducerActionView {
        match self {
            ProducerAction::CreateOutput => ProducerActionView::CreateOutput,
            ProducerAction::ReadArchive => ProducerActionView::ReadArchive,
            ProducerAction::Write { extraction, executor } => ProducerActionView::Write {
                extraction: extraction@,
                executor: *executor,
            },
            ProducerAction::DiscardOutput => ProducerActionView::DiscardOutput,
            ProducerAction::Reply { result } => ProducerActionView::Reply { result: *result },
            ProducerAction::End => ProducerActionView::End,
        }
    }
}

/// Whether an event can be what became of the step of a stage.
pub open spec fn awaits(stage: StageView, event: ProducerEventView) -> bool {
    match stage {
        StageView::Created => event is Begin,
        StageView::CreatingOutput => event is OutputCreated || event is Failed || event is Panicked,
        StageView::ReadingArchive => event is Extracted || event is Failed || event is Panicked,
        StageView::Writing => event is Written || event is Failed || event is Panicked,
        StageView::Discarding { .. } => event is Discarded,
        StageView::Replying { .. } => event is Delivered || event is CallerGone,
        StageView::Leaving => event is Discarded,
        StageView::Ended => false,
    }
}

/// The output is removed, then the failure is reported.
pub open spec fn give_up(error: UnpackError) -> (StageView, ProducerActionView) {
    (StageView::Discarding { error }, ProducerActionView::DiscardOutput)
}

/// The failure is reported at once: there is no output.
pub open spec fn report(error: UnpackError) -> (StageView, ProducerActionView) {
    (StageView::Replying { unpacked: false }, ProducerActionView::Reply { result: Err(error) })
}

/// How a producer goes on.
pub open spec fn producer_step(
    stage: StageView,
    executor: ExecutorChoice,
    event: ProducerEventView,
) -> (StageView, ProducerActionView) {
    match stage {
        StageView::Created => (StageView::CreatingOutput, ProducerActionView::CreateOutput),
        StageView::CreatingOutput => match event {
            ProducerEventView::OutputCreated => (
                StageView::ReadingArchive,
                ProducerActionView::ReadArchive,
            ),
            ProducerEventView::Panicked => report(UnpackError::ProducerPanicked),
            _ => report(UnpackError::OutputNotCreated),
        },
        StageView::ReadingArchive => match event {
            ProducerEventView::Extracted { result } => match result {
                Ok(extraction) => (
                    StageView::Writing,
                    ProducerActionView::Write { extraction, executor },
                ),
                Err(error) => give_up(UnpackError::Extraction(error)),
            },
            ProducerEventView::Panicked => give_up(UnpackError::ProducerPanicked),
            _ => give_up(UnpackError::ArchiveNotRead),
        },
        StageView::Writing => match event {
            ProducerEventView::Written => (
                StageView::Replying { unpacked: true },
                ProducerActionView::Reply { result: Ok(()) },
            ),
            ProducerEventView::Panicked => give_up(UnpackError::ProducerPanicked),
            _ => give_up(UnpackError::WriteFailed),
        },
        StageView::Discarding { error } => report(error),
        StageView::Replying { unpacked } => if unpacked && event is CallerGone {
            (StageView::Leaving, ProducerActionView::DiscardOutput)
        } else {
            (StageView::Ended, ProducerActionView::End)
        },
        StageView::Leaving => (StageView::Ended, ProducerActionView::End),
        StageView::Ended => (StageView::Ended, ProducerActionView::End),
    }
}

/// Extracts an archive into an owned temporary directory, without the archive's top
/// level: the producer that does so, unless the request cannot be met.
///
/// `ram_budget` is tested and handed on to the executor; it bounds nothing here, and
/// is no limit on all memory. The stream that the archive decodes to is held whole.
pub fn unpack(
    compression: Compression,
    backend: Backend,
    threads: IoThreadCount,
    ram_budget: usize,
) -> (r: Result<TarProducer, UnpackError>)
    ensures
        match r {
            Ok(producer) => {
                &&& effective_threads(ram_budget, threads) > 0
                &&& ram_budget >= 2 * IO_CHUNK_SIZE
                &&& producer@ == (ProducerView {
                    compression,
                    executor: executor_for(
                        backend,
                        effective_threads(ram_budget, threads),
                        ram_budget,
                    ),
                    stage: StageView::Created,
                })
            },
            Err(UnpackError::NoThreads) => effective_threads(ram_budget, threads) == 0,
            Err(UnpackError::RamBudgetTooSmall) => effective_threads(ram_budget, threads) > 0
                && ram_budget < 2 * IO_CHUNK_SIZE,
            Err(_) => false,
        },
{
    let count: usize = effective_thread_count(ram_budget, threads);
    if count == 0 {
        return Err(UnpackError::NoThreads);
    }
    if ram_budget < 2 * IO_CHUNK_SIZE {
        return Err(UnpackError::RamBudgetTooSmall);
    }
    let executor = match backend {
        Backend::Tokio if count > 1 => ExecutorChoice::Tokio { threads: count, ram_budget },
        _ => if count > 1 {
            ExecutorChoice::Threaded { threads: count, ram_budget }
        } else {
            ExecutorChoice::Immediate
        },
    };
    Ok(TarProducer { compression, executor, stage: Stage::Created })
}

/// What the caller makes of the producer: whether it started, and its reply, if one
/// came.
pub open spec fn caller_result(
    started: bool,
    reply: Option<Result<(), UnpackError>>,
) -> Result<(), UnpackError> {
    if !started {
        Err(UnpackError::ProducerNotStarted)
    } else {
        match reply {
            Some(result) => result,
            None => Err(UnpackError::ProducerLost),
        }
    }
}

/// What unpacking comes to for the caller: `started` says whether the producer
/// could be started, `reply` is what it sent before it was gone.
pub fn unpack_result(started: bool, reply: Option<Result<(), UnpackError>>) -> (r: Result<
    (),
    UnpackError,
>)
    ensures
        r == caller_result(started, reply),
{
    if !started {
        return Err(UnpackError::ProducerNotStarted);
    }
    match reply {
        Some(result) => result,
        None => Err(UnpackError::ProducerLost),
    }
}

impl TarProducer {
    /// Extracts the archive that was read: the event that says what came of it.
    pub fn extract(&self, archive: Vec<u8>) -> (r: ProducerEvent)
        ensures
            r@ is Extracted,
            extracts_to(self@.compression, archive@, r@->result),
            r matches ProducerEvent::Extracted { result: Ok(extraction) } ==> extraction@.wf(),
    {
        ProducerEvent::Extracted { result: extract(self.compression, archive) }
    }

    /// The step that follows on `event`.
    pub fn step(&mut self, event: ProducerEvent) -> (r: ProducerAction)
        requires
            awaits(old(self)@.stage, event@),
        ensures
            (final(self)@.stage, r@) == producer_step(
                old(self)@.stage,
                old(self)@.executor,
                event@,
            ),
            final(self)@.compression == old(self)@.compression,
            final(self)@.executor == old(self)@.executor,
    {
        let mut stage = Stage::Ended;
        std::mem::swap(&mut stage, &mut self.stage);
        match stage {
            Stage::Created => {
                self.stage = Stage::CreatingOutput;
                ProducerAction::CreateOutput
            },
            Stage::CreatingOutput => match event {
                ProducerEvent::OutputCreated => {
                    self.stage = Stage::ReadingArchive;
                    ProducerAction::ReadArchive
                },
                ProducerEvent::Panicked => self.report(UnpackError::ProducerPanicked),
                _ => self.report(UnpackError::OutputNotCreated),
            },
            Stage::ReadingArchive => match event {
                ProducerEvent::Extracted { result } => match result {
                    Ok(extraction) => {
                        self.stage = Stage::Writing;
                        ProducerAction::Write { extraction, executor: self.executor }
                    },
                    Err(error) => self.give_up(UnpackError::Extraction(error)),
                },
                ProducerEvent::Panicked => self.give_up(UnpackError::ProducerPanicked),
                _ => self.give_up(UnpackError::ArchiveNotRead),
            },
            Stage::Writing => match event {
                ProducerEvent::Written => {
                    self.stage = Stage::Replying { unpacked: true };
                    ProducerAction::Reply { result: Ok(()) }
                },
                ProducerEvent::Panicked => self.give_up(UnpackError::ProducerPanicked),
                _ => self.give_up(UnpackError::WriteFailed),
            },
            Stage::Discarding { error } => self.report(error),
            Stage::Replying { unpacked } => match (unpacked, event) {
                (true, ProducerEvent::CallerGone) => {
                    self.stage = Stage::Leaving;
                    ProducerAction::DiscardOutput
                },
                _ => ProducerAction::End,
            },
            Stage::Leaving => ProducerAction::End,
            Stage::Ended => ProducerAction::End,
        }
    }

    /// Removes the output, then reports the failure.
    fn give_up(&mut self, error: UnpackError) -> (r: ProducerAction)
        ensures
            (final(self)@.stage, r@) == give_up(error),
            final(self)@.compression == old(self)@.compression,
            final(self)@.executor == old(self)@.executor,
    {
        self.stage = Stage::Discarding { error };
        ProducerAction::DiscardOutput
    }

    /// Reports the failure at once.
    fn report(&mut self, error: UnpackError) -> (r: ProducerAction)
        ensures
            (final(self)@.stage, r@) == report(error),
            final(self)@.compression == old(self)@.compression,
            final(self)@.executor == old(self)@.executor,
    {
        self.stage = Stage::Replying { unpacked: false };
        ProducerAction::Reply { result: Err(error) }
    }
}

/// The output directory of a producer: not there yet, in its hands, in those of the
/// caller, or gone.
pub enum OutputFate {
    Absent,
    Held,
    HandedOver,
    Gone,
}

/// A producer with what became of its output.
pub struct ProducerRun {
    pub producer: ProducerView,
    pub output: OutputFate,
}

/// The run after one more event.
pub open spec fn producer_run_after(run: ProducerRun, event: ProducerEventView) -> ProducerRun {
    let (stage, _) = producer_step(run.producer.stage, run.producer.executor, event);
    ProducerRun {
        producer: ProducerView { stage, ..run.producer },
        output: match event {
            ProducerEventView::OutputCreated => OutputFate::Held,
            ProducerEventView::Discarded => OutputFate::Gone,
            ProducerEventView::Delivered => if run.producer.stage == (StageView::Replying {
                unpacked: true,
            }) {
                OutputFate::HandedOver
            } else {
                run.output
            },
            _ => run.output,
        },
    }
}

/// The run that a list of events makes.
pub open spec fn producer_run(
    producer: ProducerView,
    events: Seq<ProducerEventView>,
) -> ProducerRun
    decreases events.len(),
{
    if events.len() == 0 {
        ProducerRun { producer, output: OutputFate::Absent }
    } else {
        producer_run_after(producer_run(producer, events.drop_last()), events.last())
    }
}

/// Whether each event of a list can come where it stands.
pub open spec fn producer_can_see(
    producer: ProducerView,
    events: Seq<ProducerEventView>,
) -> bool
    decreases events.len(),
{
    events.len() > 0 ==> producer_can_see(producer, events.drop_last()) && awaits(
        producer_run(producer, events.drop_last()).producer.stage,
        events.last(),
    )
}

/// How the output stands to what the producer does.
pub open spec fn output_fits(run: ProducerRun) -> bool {
    match run.producer.stage {
        StageView::Created => run.output is Absent,
        StageView::CreatingOutput => run.output is Absent,
        StageView::ReadingArchive => run.output is Held,
        StageView::Writing => run.output is Held,
        StageView::Discarding { .. } => run.output is Held,
        StageView::Replying { unpacked } => if unpacked {
            run.output is Held
        } else {
            run.output is Absent || run.output is Gone
        },
        StageView::Leaving => run.output is Held,
        StageView::Ended => !(run.output is Held),
    }
}

proof fn lemma_output_fits(producer: ProducerView, events: Seq<ProducerEventView>)
    requires
        producer.stage is Created,
        producer_can_see(producer, events),
    ensures
        output_fits(producer_run(producer, events)),
    decreases events.len(),
{
    if events.len() > 0 {
        lemma_output_fits(producer, events.drop_last());
    }
}

/// Whatever happens, a producer that has ended has left no output behind: the caller
/// owns it, or it is gone, or it never was.
pub proof fn no_output_is_left_behind(producer: ProducerView, events: Seq<ProducerEventView>)
    requires
        producer.stage is Created,
        producer_can_see(producer, events),
        producer_run(producer, events).producer.stage is Ended,
    ensures
        !(producer_run(producer, events).output is Held),
{
    lemma_output_fits(producer, events);
}

/// A failure is reported only once the output is gone, and success only with all
/// members written and the output in hand.
pub proof fn replies_tell_the_truth(
    producer: ProducerView,
    events: Seq<ProducerEventView>,
    event: ProducerEventView,
)
    requires
        producer.stage is Created,
        producer_can_see(producer, events.push(event)),
    ensures
        ({
            let before = producer_run(producer, events);
            let after = producer_run(producer, events.push(event));
            let action = producer_step(before.producer.stage, producer.executor, event).1;
            &&& action matches ProducerActionView::Reply { result: Err(_) } ==> after.output is Absent
                || after.output is Gone
            &&& action matches ProducerActionView::Reply { result: Ok(_) } ==> after.output is Held
                && before.producer.stage is Writing && event is Written
        }),
{
    assert(events.push(event).drop_last() =~= events);
    lemma_output_fits(producer, events);
    lemma_output_fits(producer, events.push(event));
    lemma_plan_stays(producer, events);
}

proof fn lemma_plan_stays(producer: ProducerView, events: Seq<ProducerEventView>)
    ensures
        producer_run(producer, events).producer.executor == producer.executor,
        producer_run(producer, events).producer.compression == producer.compression,
    decreases events.len(),
{
    if events.len() > 0 {
        lemma_plan_stays(producer, events.drop_last());
    }
}

/// The output is removed at no other time than after the last write has ended, and
/// never once the caller has it.
pub proof fn output_is_never_removed_under_a_write(
    producer: ProducerView,
    events: Seq<ProducerEventView>,
    event: ProducerEventView,
)
    requires
        producer.stage is Created,
        producer_can_see(producer, events.push(event)),
        producer_step(
            producer_run(producer, events).producer.stage,
            producer.executor,
            event,
        ).1 is DiscardOutput,
    ensures
        !(producer_run(producer, events.push(event)).producer.stage is Writing),
        producer_run(producer, events.push(event)).output is Held,
        producer_run(producer, events).producer.stage is Writing ==> event is Failed
            || event is Panicked,
{
    assert(events.push(event).drop_last() =~= events);
    lemma_output_fits(producer, events);
    lemma_output_fits(producer, events.push(event));
    lemma_plan_stays(producer, events);
}

/// A caller that leaves early changes nothing before the reply: the producer goes
/// through the same steps, and then removes what it would have handed over.
pub proof fn cancelled_caller_gets_no_output(
    producer: ProducerView,
    events: Seq<ProducerEventView>,
)
    requires
        producer.stage is Created,
        producer_can_see(producer, events),
        producer_run(producer, events).producer.stage == (StageView::Replying { unpacked: true }),
    ensures
        ({
            let run = producer_run(producer, events);
            let left = producer_run_after(run, ProducerEventView::CallerGone);
            let removed = producer_run_after(left, ProducerEventView::Discarded);
            &&& producer_step(run.producer.stage, run.producer.executor, ProducerEventView::CallerGone).1
                is DiscardOutput
            &&& left.output is Held
            &&& removed.output is Gone
            &&& removed.producer.stage is Ended
        }),
{
    lemma_output_fits(producer, events);
}

/// How many steps a producer can still take.
pub open spec fn steps_left(stage: StageView) -> nat {
    match stage {
        StageView::Created => 7,
        StageView::CreatingOutput => 6,
        StageView::ReadingArchive => 5,
        StageView::Writing => 4,
        StageView::Discarding { .. } => 3,
        StageView::Replying { .. } => 2,
        StageView::Leaving => 1,
        StageView::Ended => 0,
    }
}

/// Every step brings a producer nearer to its end.
pub proof fn producers_come_to_an_end(
    stage: StageView,
    executor: ExecutorChoice,
    event: ProducerEventView,
)
    requires
        awaits(stage, event),
    ensures
        steps_left(producer_step(stage, executor, event).0) < steps_left(stage),
        producer_step(stage, executor, event).1 is End <==> producer_step(
            stage,
            executor,
            event,
        ).0 is Ended,
{
}

/// A count that the user chose stands; an automatic one stands from 512 MiB on, and is
/// one below.
pub proof fn low_memory_overrules_automatic_counts_only(ram_budget: usize, count: usize)
    ensures
        effective_threads(ram_budget, IoThreadCount::UserSpecified(count)) == count,
        ram_budget >= 536870912 ==> effective_threads(ram_budget, IoThreadCount::Default(count))
            == count,
        ram_budget < 536870912 ==> effective_threads(ram_budget, IoThreadCount::Default(count)) == 1,
{
}

/// One thread writes by itself; more of them make a pool of that many, of the kind that
/// was asked for, with the whole budget.
pub proof fn executor_is_what_was_asked_for(backend: Backend, count: usize, ram_budget: usize)
    ensures
        count <= 1 <==> executor_for(backend, count, ram_budget) is Immediate,
        count > 1 && backend == Backend::Tokio ==> executor_for(backend, count, ram_budget) == (
        ExecutorChoice::Tokio { threads: count, ram_budget }),
        count > 1 && backend == Backend::Threaded ==> executor_for(backend, count, ram_budget) == (
        ExecutorChoice::Threaded { threads: count, ram_budget }),
{
}

/// Two pieces of a large file are 32 MiB.
pub proof fn two_pieces_are_the_least_budget()
    ensures
        2 * IO_CHUNK_SIZE == 33554432,
        LOW_MEMORY == 536870912,
{
}

/// A producer that nothing goes wrong for creates its output, reads the archive, has
/// written all that was extracted from it, by its executor, and replies that it is done.
pub proof fn producer_writes_what_was_extracted(
    executor: ExecutorChoice,
    extraction: ExtractionView,
)
    ensures
        producer_step(StageView::Created, executor, ProducerEventView::Begin) == (
            StageView::CreatingOutput,
            ProducerActionView::CreateOutput,
        ),
        producer_step(StageView::CreatingOutput, executor, ProducerEventView::OutputCreated) == (
            StageView::ReadingArchive,
            ProducerActionView::ReadArchive,
        ),
        producer_step(
            StageView::ReadingArchive,
            executor,
            ProducerEventView::Extracted { result: Ok(extraction) },
        ) == (StageView::Writing, ProducerActionView::Write { extraction, executor }),
        producer_step(StageView::Writing, executor, ProducerEventView::Written) == (
            StageView::Replying { unpacked: true },
            ProducerActionView::Reply { result: Ok(()) },
        ),
        producer_step(
            StageView::Replying { unpacked: true },
            executor,
            ProducerEventView::Delivered,
        ) == (StageView::Ended, ProducerActionView::End),
{
}

/// A step that goes wrong is answered with its own error. Where there is an output, it is
/// removed first, and the error comes behind that, unchanged.
pub proof fn each_failure_is_told_as_it_was(
    executor: ExecutorChoice,
    stage: StageView,
    event: ProducerEventView,
    error: UnpackError,
)
    requires
        ({
            ||| stage is CreatingOutput && event is Failed && error is OutputNotCreated
            ||| stage is ReadingArchive && event is Failed && error is ArchiveNotRead
            ||| stage is Writing && event is Failed && error is WriteFailed
            ||| (stage is CreatingOutput || stage is ReadingArchive || stage is Writing) && event
                is Panicked && error is ProducerPanicked
            ||| stage is ReadingArchive && event is Extracted && event->result is Err && error
                == UnpackError::Extraction(event->result->Err_0)
        }),
    ensures
        ({
            let (next, action) = producer_step(stage, executor, event);
            let reply = ProducerActionView::Reply { result: Err(error) };
            if stage is CreatingOutput {
                action == reply && next == (StageView::Replying { unpacked: false })
            } else {
                &&& action == ProducerActionView::DiscardOutput
                &&& producer_step(next, executor, ProducerEventView::Discarded) == (
                    StageView::Replying { unpacked: false },
                    reply,
                )
            }
        }),
{
}

/// A caller that is gone is answered by removing the output, where there is one, and the
/// producer has ended then; it ends at once where there is none.
pub proof fn gone_caller_ends_the_producer(executor: ExecutorChoice, event: ProducerEventView)
    requires
        event is CallerGone || event is Delivered,
    ensures
        producer_step(
            StageView::Replying { unpacked: true },
            executor,
            ProducerEventView::CallerGone,
        ) == (StageView::Leaving, ProducerActionView::DiscardOutput),
        producer_step(StageView::Leaving, executor, ProducerEventView::Discarded) == (
            StageView::Ended,
            ProducerActionView::End,
        ),
        producer_step(StageView::Replying { unpacked: false }, executor, event) == (
            StageView::Ended,
            ProducerActionView::End,
        ),
{
}

/// Which events can come while a producer does what.
pub proof fn events_come_where_they_belong(stage: StageView, event: ProducerEventView)
    ensures
        awaits(stage, event) && event is Begin ==> stage is Created,
        awaits(stage, event) && event is OutputCreated ==> stage is CreatingOutput,
        awaits(stage, event) && event is Extracted ==> stage is ReadingArchive,
        awaits(stage, event) && event is Written ==> stage is Writing,
        awaits(stage, event) && event is Discarded ==> stage is Discarding || stage is Leaving,
        awaits(stage, event) && (event is Delivered || event is CallerGone) ==> stage is Replying,
        stage is Created && event is Begin ==> awaits(stage, event),
        stage is CreatingOutput && (event is OutputCreated || event is Failed || event is Panicked)
            ==> awaits(stage, event),
        stage is ReadingArchive && (event is Extracted || event is Failed || event is Panicked)
            ==> awaits(stage, event),
        stage is Writing && (event is Written || event is Failed || event is Panicked) ==> awaits(
            stage,
            event,
        ),
        (stage is Discarding || stage is Leaving) && event is Discarded ==> awaits(stage, event),
        stage is Replying && (event is Delivered || event is CallerGone) ==> awaits(stage, event),
{
}

/// A caller gets the reply as it was sent; without one it is told that the producer was
/// lost, and without a producer that it was not started.
pub proof fn caller_gets_the_reply(reply: Option<Result<(), UnpackError>>)
    ensures
        caller_result(false, reply) == Err::<(), UnpackError>(UnpackError::ProducerNotStarted),
        caller_result(true, None) == Err::<(), UnpackError>(UnpackError::ProducerLost),
        reply matches Some(result) ==> caller_result(true, reply) == result,
{
}

/// What a step says is told as it is.
pub proof fn steps_are_told_as_they_are(event: ProducerEvent, action: ProducerAction)
    ensures
        event is Begin <==> event@ is Begin,
        event is OutputCreated <==> event@ is OutputCreated,
        event is Written <==> event@ is Written,
        event is Failed <==> event@ is Failed,
        event is Panicked <==> event@ is Panicked,
        event is Discarded <==> event@ is Discarded,
        event is Delivered <==> event@ is Delivered,
        event is CallerGone <==> event@ is CallerGone,
        event matches ProducerEvent::Extracted { result: Ok(extraction) } ==> event@ == (
        ProducerEventView::Extracted { result: Ok(extraction@) }),
        event matches ProducerEvent::Extracted { result: Err(error) } ==> event@ == (
        ProducerEventView::Extracted { result: Err(error) }),
        action is CreateOutput <==> action@ is CreateOutput,
        action is ReadArchive <==> action@ is ReadArchive,
        action is DiscardOutput <==> action@ is DiscardOutput,
        action is End <==> action@ is End,
        action matches ProducerAction::Write { extraction, executor } ==> action@ == (
        ProducerActionView::Write { extraction: extraction@, executor }),
        action matches ProducerAction::Reply { result } ==> action@ == (
        ProducerActionView::Reply { result }),
{
}

} // verus!
