//! The logger: its configuration, and the routing of a record to its sinks.

use crate::cache::{
    handles_after, is_bounded, is_ready, lemma_handles_follow_cache, lemma_order_after,
    order_after, outcome_of, Acquired, AcquiredView, Destination, DestinationView, FileCache,
};
use crate::clock::{local_now, Moment, MomentView};
use crate::level::{admits, Level, LevelFilter};
use crate::names::{
    daily_file_name, daily_name, lemma_order_name_is_no_daily_name, order_file_name, order_name,
};
use crate::record::{colored_text, colorize, entry_text, format_entry, Record, RecordView};
use vstd::prelude::*;

verus! {

/// The number of log files that a logger keeps open.
pub const MAX_CACHE_SIZE: usize = 32;

/// One line to append to a log file, flushed before anything else is done.
#[derive(Debug, PartialEq, Eq)]
pub struct FileWrite {
    pub destination: Destination,
    /// The line, without the line break that ends it in the file.
    pub line: String,
    /// The file is not open yet: open it for appending first, creating it and
    /// its directories where they are missing.
    pub opened: bool,
    /// The handle of this file has left the cache: close it first.
    pub evicted: Option<Destination>,
}

/// A write as the contracts speak of it.
pub struct FileWriteView {
    pub destination: DestinationView,
    pub line: Seq<char>,
    pub opened: bool,
    pub evicted: Option<DestinationView>,
}

impl View for FileWrite {
    type V = FileWriteView;

    open spec fn view(&self) -> FileWriteView {
        FileWriteView {
            destination: self.destination@,
            line: self.line@,
            opened: self.opened,
            evicted: match self.evicted {
                Some(d) => Some(d@),
                None => None,
            },
        }
    }
}

/// What the caller has to do for a record.
#[derive(Debug, PartialEq, Eq)]
pub enum Output {
    /// Print the line, which carries its colour, on standard output.
    Console(String),
    /// Append the line to a file.
    File(FileWrite),
}

/// An output as the contracts speak of it.
pub enum OutputView {
    Console(Seq<char>),
    File(FileWriteView),
}

impl View for Output {
    type V = OutputView;

    open spec fn view(&self) -> OutputView {
        match self {
            Output::Console(line) => OutputView::Console(line@),
            Output::File(write) => OutputView::File(write@),
        }
    }
}

/// The file `file_name` under the base directory, where there is one.
pub open spec fn destination_of(
    base_path: Option<Seq<char>>,
    file_name: Seq<char>,
) -> DestinationView {
    DestinationView { base: base_path, file_name }
}

/// The write of `line` to a file, for a cache that holds `order`.
pub open spec fn file_write_of(
    order: Seq<DestinationView>,
    max_size: nat,
    base_path: Option<Seq<char>>,
    file_name: Seq<char>,
    line: Seq<char>,
) -> FileWriteView {
    let destination = destination_of(base_path, file_name);
    let outcome = outcome_of(order, max_size, destination);
    FileWriteView { destination, line, opened: outcome.opened, evicted: outcome.evicted }
}

/// The view of a base directory that may be absent.
pub open spec fn base_of(base_path: Option<String>) -> Option<Seq<char>> {
    match base_path {
        Some(b) => Some(b@),
        None => None,
    }
}

/// Plans the write of one line to the file `file_name` under `base_path`, and
/// records in the cache that the file is now the most recently used one.
pub fn write_to_file(
    cache: &mut FileCache,
    file_name: &str,
    log_entry: &str,
    base_path: Option<String>,
) -> (write: FileWrite)
    ensures
        write@ == file_write_of(
            old(cache)@,
            old(cache).capacity(),
            base_of(base_path),
            file_name@,
            log_entry@,
        ),
        final(cache)@ == order_after(
            old(cache)@,
            old(cache).capacity(),
            destination_of(base_of(base_path), file_name@),
        ),
        final(cache).capacity() == old(cache).capacity(),
        is_bounded(final(cache)@, final(cache).capacity()),
{
    let destination = Destination { base: base_path, file_name: file_name.to_owned() };
    let Acquired { opened, evicted } = cache.get_or_open(destination.clone());
    FileWrite { destination, line: log_entry.to_owned(), opened, evicted }
}

/// A logger: the base directory, the threshold of each sink, and the cache of
/// open files.
pub struct DailyLogger {
    base_path: Option<String>,
    stdout_level: LevelFilter,
    file_level: LevelFilter,
    cache: FileCache,
}

/// A logger as the contracts speak of it.
pub struct LoggerView {
    /// The directory of the log files; without one, file names stand alone.
    pub base_path: Option<Seq<char>>,
    /// The threshold of the console.
    pub stdout_level: LevelFilter,
    /// The threshold of the files.
    pub file_level: LevelFilter,
    /// The open files, least recently used first.
    pub open_files: Seq<DestinationView>,
    /// The number of files that may be open.
    pub capacity: nat,
}

/// A sequence of the value, where there is one.
pub open spec fn maybe<T>(value: Option<T>) -> Seq<T> {
    match value {
        Some(v) => seq![v],
        None => Seq::empty(),
    }
}

/// The line of a record at a time: with the key where the record has one.
pub open spec fn line_of(record: RecordView, now: MomentView) -> Seq<char> {
    entry_text(now.stamp, record.level, record.target, record.key(), record.message)
}

impl LoggerView {
    /// No file is open twice, and no more files are open than may be.
    pub open spec fn is_valid(self) -> bool {
        is_bounded(self.open_files, self.capacity)
    }

    /// The most verbose severity that any sink takes.
    pub open spec fn max_level(self) -> LevelFilter {
        self.stdout_level.max(self.file_level)
    }

    /// The file of the record's key, where the record has a key and the file
    /// sink takes the record.
    pub open spec fn key_destination(self, record: RecordView) -> Option<DestinationView> {
        match record.key() {
            Some(k) => if admits(record.level, self.file_level) {
                Some(destination_of(self.base_path, order_name(k)))
            } else {
                None
            },
            None => None,
        }
    }

    /// The daily file, where the file sink takes the record.
    pub open spec fn daily_destination(self, record: RecordView, now: MomentView) -> Option<
        DestinationView,
    > {
        if admits(record.level, self.file_level) {
            Some(destination_of(self.base_path, daily_name(now.year, now.month, now.day)))
        } else {
            None
        }
    }

    /// The open files after the write to the key's file, if there is one.
    pub open spec fn open_after_key(self, record: RecordView) -> Seq<DestinationView> {
        match self.key_destination(record) {
            Some(d) => order_after(self.open_files, self.capacity, d),
            None => self.open_files,
        }
    }

    /// The write to the key's file.
    pub open spec fn key_write(self, record: RecordView, now: MomentView) -> Option<OutputView> {
        match self.key_destination(record) {
            Some(d) => Some(
                OutputView::File(
                    file_write_of(
                        self.open_files,
                        self.capacity,
                        d.base,
                        d.file_name,
                        line_of(record, now),
                    ),
                ),
            ),
            None => None,
        }
    }

    /// The line for the console, where the console takes the record.
    pub open spec fn console_line(self, record: RecordView, now: MomentView) -> Option<
        OutputView,
    > {
        if admits(record.level, self.stdout_level) {
            Some(OutputView::Console(colored_text(record.level, line_of(record, now))))
        } else {
            None
        }
    }

    /// The write to the daily file.
    pub open spec fn daily_write(self, record: RecordView, now: MomentView) -> Option<
        OutputView,
    > {
        match self.daily_destination(record, now) {
            Some(d) => Some(
                OutputView::File(
                    file_write_of(
                        self.open_after_key(record),
                        self.capacity,
                        d.base,
                        d.file_name,
                        line_of(record, now),
                    ),
                ),
            ),
            None => None,
        }
    }

    /// What a record at a time demands, in order: the write to the file of its
    /// key, the console line, the write to the daily file; each only where its
    /// sink takes the record.
    pub open spec fn outputs(self, record: RecordView, now: MomentView) -> Seq<OutputView> {
        maybe(self.key_write(record, now)) + maybe(self.console_line(record, now)) + maybe(
            self.daily_write(record, now),
        )
    }

    /// The logger after the record: only the open files change.
    pub open spec fn after(self, record: RecordView, now: MomentView) -> LoggerView {
        LoggerView {
            open_files: match self.daily_destination(record, now) {
                Some(d) => order_after(self.open_after_key(record), self.capacity, d),
                None => self.open_after_key(record),
            },
            ..self
        }
    }
}

impl View for DailyLogger {
    type V = LoggerView;

    closed spec fn view(&self) -> LoggerView {
        LoggerView {
            base_path: base_of(self.base_path),
            stdout_level: self.stdout_level,
            file_level: self.file_level,
            open_files: self.cache@,
            capacity: self.cache.capacity(),
        }
    }
}

/// The outputs as the contracts speak of them.
pub open spec fn views_of(outputs: Seq<Output>) -> Seq<OutputView> {
    outputs.map_values(|o: Output| o@)
}

impl DailyLogger {
    /// A logger without a base directory, whose sinks take `Info` and what is
    /// more severe, with no file open.
    pub fn new() -> (logger: DailyLogger)
        ensures
            logger@ == (LoggerView {
                base_path: None,
                stdout_level: LevelFilter::Info,
                file_level: LevelFilter::Info,
                open_files: Seq::empty(),
                capacity: MAX_CACHE_SIZE as nat,
            }),
    {
        DailyLogger {
            base_path: None,
            stdout_level: LevelFilter::Info,
            file_level: LevelFilter::Info,
            cache: FileCache::new(MAX_CACHE_SIZE),
        }
    }

    /// Sets the directory of the log files. The open files stay as they are.
    pub fn set_base_path(&mut self, path: String)
        ensures
            final(self)@ == (LoggerView { base_path: Some(path@), ..old(self)@ }),
    {
        self.base_path = Some(path);
    }

    /// The directory of the log files, if one was set.
    pub fn get_base_path(&self) -> (path: Option<String>)
        ensures
            base_of(path) == self@.base_path,
    {
        match &self.base_path {
            Some(b) => Some(b.clone()),
            None => None,
        }
    }

    /// Sets the threshold of the console and that of the files.
    pub fn set_levels(&mut self, stdout_level: LevelFilter, file_level: LevelFilter)
        ensures
            final(self)@ == (LoggerView { stdout_level, file_level, ..old(self)@ }),
    {
        self.stdout_level = stdout_level;
        self.file_level = file_level;
    }

    /// The most verbose severity that any sink takes.
    pub fn max_level(&self) -> (level: LevelFilter)
        ensures
            level == self@.max_level(),
    {
        self.stdout_level.max(self.file_level)
    }

    /// Whether any sink takes a record of this severity.
    pub fn enabled(&self, level: Level) -> (r: bool)
        ensures
            r == admits(level, self@.max_level()),
            r == (admits(level, self@.stdout_level) || admits(level, self@.file_level)),
    {
        admits(level, self.max_level())
    }

    /// Routes a record that was made at the time `now`.
    pub fn log_at(&mut self, record: &Record, now: &Moment) -> (outputs: Vec<Output>)
        ensures
            views_of(outputs@) == old(self)@.outputs(record@, now@),
            final(self)@ == old(self)@.after(record@, now@),
            final(self)@.is_valid(),
    {
        proof {
            use_type_invariant(&self.cache);
        }
        let ghost before = self@;
        let mut outputs: Vec<Output> = Vec::new();
        assert(views_of(outputs@) =~= Seq::empty());
        if !self.enabled(record.level) {
            assert(before.outputs(record@, now@) =~= Seq::empty());
            return outputs;
        }
        let key = record.correlation_key();
        let entry = format_entry(
            now.stamp.as_str(),
            record.level,
            record.target.as_str(),
            key,
            record.message.as_str(),
        );
        if let Some(uuid) = key {
            if admits(record.level, self.file_level) {
                let file_name = order_file_name(uuid.as_str());
                let base_path = self.get_base_path();
                let write = write_to_file(
                    &mut self.cache,
                    file_name.as_str(),
                    entry.as_str(),
                    base_path,
                );
                outputs.push(Output::File(write));
            }
        }
        assert(views_of(outputs@) =~= maybe(before.key_write(record@, now@)));
        assert(self@.open_files == before.open_after_key(record@));
        if admits(record.level, self.stdout_level) {
            outputs.push(Output::Console(colorize(record.level, entry.as_str())));
        }
        assert(views_of(outputs@) =~= maybe(before.key_write(record@, now@)) + maybe(
            before.console_line(record@, now@),
        ));
        if admits(record.level, self.file_level) {
            let file_name = daily_file_name(now.year, now.month, now.day);
            let base_path = self.get_base_path();
            let write = write_to_file(
                &mut self.cache,
                file_name.as_str(),
                entry.as_str(),
                base_path,
            );
            outputs.push(Output::File(write));
        }
        assert(views_of(outputs@) =~= before.outputs(record@, now@));
        outputs
    }

    /// Routes a record at the current local time.
    pub fn log(&mut self, record: &Record) -> (outputs: Vec<Output>)
        ensures
            exists|now: MomentView|
                {
                    &&& now.has_calendar_date()
                    &&& views_of(outputs@) == #[trigger] old(self)@.outputs(record@, now)
                    &&& final(self)@ == old(self)@.after(record@, now)
                },
            final(self)@.is_valid(),
    {
        let now = local_now();
        self.log_at(record, &now)
    }
}

/// Configures a logger: its base directory and the threshold of each sink.
/// The open files stay as they are. Returns the most verbose severity that
/// any sink takes, for the facade to filter by.
pub fn init_logger(
    logger: &mut DailyLogger,
    stdout_level: LevelFilter,
    file_level: LevelFilter,
    base_path: String,
) -> (max_level: LevelFilter)
    ensures
        final(logger)@ == (LoggerView {
            base_path: Some(base_path@),
            stdout_level,
            file_level,
            ..old(logger)@
        }),
        max_level == stdout_level.max(file_level),
{
    logger.set_base_path(base_path);
    logger.set_levels(stdout_level, file_level);
    stdout_level.max(file_level)
}

/// Whether an output is a write to a file.
pub open spec fn is_file_write(output: OutputView) -> bool {
    output is File
}

/// Whether an output is the write of `line` to the file `file_name` under the
/// base directory `base_path`.
pub open spec fn writes_line(
    output: OutputView,
    base_path: Option<Seq<char>>,
    file_name: Seq<char>,
    line: Seq<char>,
) -> bool {
    match output {
        OutputView::File(write) => write.destination == destination_of(base_path, file_name)
            && write.line == line,
        OutputView::Console(_) => false,
    }
}

/// A record with a correlation key that the file sink takes is written to the
/// file of its key first and to the daily file last, with the same line in
/// both: the line that shows the key in angle brackets. The two are different
/// files, and the record is written to no other.
pub proof fn lemma_keyed_record_reaches_both_files(
    state: LoggerView,
    record: RecordView,
    now: MomentView,
    key: Seq<char>,
)
    requires
        record.key() == Some(key),
        admits(record.level, state.file_level),
    ensures
        ({
            let outputs = state.outputs(record, now);
            let line = entry_text(now.stamp, record.level, record.target, Some(key), record.message);
            &&& 2 <= outputs.len() <= 3
            &&& writes_line(outputs.first(), state.base_path, order_name(key), line)
            &&& writes_line(
                outputs.last(),
                state.base_path,
                daily_name(now.year, now.month, now.day),
                line,
            )
            &&& forall|i: int| 0 < i < outputs.len() - 1 ==> !is_file_write(#[trigger] outputs[i])
            &&& order_name(key) != daily_name(now.year, now.month, now.day)
        }),
{
    lemma_order_name_is_no_daily_name(key, now.year, now.month, now.day);
}

/// A record without a correlation key that the file sink takes is written to
/// the daily file, in the line without a key, and to no other file.
pub proof fn lemma_unkeyed_record_reaches_daily_file_only(
    state: LoggerView,
    record: RecordView,
    now: MomentView,
)
    requires
        record.key() is None,
        admits(record.level, state.file_level),
    ensures
        ({
            let outputs = state.outputs(record, now);
            let line = entry_text(now.stamp, record.level, record.target, None, record.message);
            &&& 1 <= outputs.len() <= 2
            &&& writes_line(
                outputs.last(),
                state.base_path,
                daily_name(now.year, now.month, now.day),
                line,
            )
            &&& forall|i: int| 0 <= i < outputs.len() - 1 ==> !is_file_write(#[trigger] outputs[i])
        }),
{
}

/// A record that the file sink does not take is written to no file and
/// leaves the open files as they are, whatever the console takes.
pub proof fn lemma_below_file_threshold_writes_no_file(
    state: LoggerView,
    record: RecordView,
    now: MomentView,
)
    requires
        !admits(record.level, state.file_level),
    ensures
        forall|i: int|
            0 <= i < state.outputs(record, now).len() ==> !is_file_write(
                #[trigger] state.outputs(record, now)[i],
            ),
        state.after(record, now) == state,
{
}

/// What the files get of a record does not depend on the console: with any
/// other console threshold the same files stay open and the same writes are
/// made, first and last.
pub proof fn lemma_console_threshold_leaves_files_alone(
    state: LoggerView,
    other: LevelFilter,
    record: RecordView,
    now: MomentView,
)
    ensures
        ({
            let varied = LoggerView { stdout_level: other, ..state };
            &&& varied.after(record, now).open_files == state.after(record, now).open_files
            &&& varied.key_write(record, now) == state.key_write(record, now)
            &&& varied.daily_write(record, now) == state.daily_write(record, now)
        }),
{
}

/// A record leaves a valid logger valid: no file open twice, no more files
/// open than may be. Each file that it is written to is the most recently
/// used one right after its write.
pub proof fn lemma_record_keeps_logger_valid(
    state: LoggerView,
    record: RecordView,
    now: MomentView,
)
    requires
        state.is_valid(),
    ensures
        state.after(record, now).is_valid(),
        is_bounded(state.open_after_key(record), state.capacity),
        state.key_destination(record) matches Some(d) ==> state.open_after_key(record).last()
            == d,
        state.daily_destination(record, now) matches Some(d) ==> state.after(
            record,
            now,
        ).open_files.last() == d,
{
    match state.key_destination(record) {
        Some(d) => {
            lemma_order_after(state.open_files, state.capacity, d);
        },
        None => {},
    }
    match state.daily_destination(record, now) {
        Some(d) => {
            lemma_order_after(state.open_after_key(record), state.capacity, d);
        },
        None => {},
    }
}

/// Whether a caller that holds the handles `open` can carry out the write.
pub open spec fn has_its_handle(open: Set<DestinationView>, write: FileWriteView) -> bool {
    is_ready(
        open,
        write.destination,
        AcquiredView { opened: write.opened, evicted: write.evicted },
    )
}

/// The handles that the caller holds after the write.
pub open spec fn handles_past(open: Set<DestinationView>, write: FileWriteView) -> Set<
    DestinationView,
> {
    handles_after(
        open,
        write.destination,
        AcquiredView { opened: write.opened, evicted: write.evicted },
    )
}

/// A caller that holds a handle for each open file of a valid logger, and no
/// other, can carry out the writes of a record one after the other, and then
/// holds a handle for each open file of the logger again. Putting a file out
/// closes its handle and takes nothing away that was written: the write that
/// puts it out goes to another file.
pub proof fn lemma_writes_find_their_handles(
    state: LoggerView,
    record: RecordView,
    now: MomentView,
)
    requires
        state.is_valid(),
    ensures
        ({
            let held = state.open_files.to_set();
            let between = state.open_after_key(record).to_set();
            let left = state.after(record, now).open_files.to_set();
            &&& match state.key_write(record, now) {
                Some(OutputView::File(write)) => has_its_handle(held, write) && handles_past(
                    held,
                    write,
                ) == between,
                _ => between == held,
            }
            &&& match state.daily_write(record, now) {
                Some(OutputView::File(write)) => has_its_handle(between, write) && handles_past(
                    between,
                    write,
                ) == left,
                _ => left == between,
            }
            &&& left.len() == state.after(record, now).open_files.len()
        }),
{
    lemma_record_keeps_logger_valid(state, record, now);
    match state.key_destination(record) {
        Some(d) => {
            lemma_handles_follow_cache(state.open_files, state.capacity, d);
        },
        None => {},
    }
    match state.daily_destination(record, now) {
        Some(d) => {
            lemma_handles_follow_cache(state.open_after_key(record), state.capacity, d);
        },
        None => {},
    }
    state.after(record, now).open_files.unique_seq_to_set();
}

} // verus!
