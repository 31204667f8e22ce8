//! The running log and the reporting tick: the snapshot is synchronized,
//! its record is appended to the running log, and it is rendered for the
//! snapshot file and the console.

use vstd::prelude::*;
use vstd::string::*;
use crate::chart::{ChartStats, Depot, GlobalBranches, Snapshot};
use crate::columns::{
    column_count, decimal_columns, lemma_decimal_columns_plain, lemma_joined_columns,
    lemma_joined_single_line, single_line,
};
use crate::report::{
    lemma_log_lines_match_header, mini_header_text, named_all, LogRecord, LOG_COLUMNS,
};

verus! {

/// The name of the snapshot file. It stands beside the directory of the
/// corpus inputs.
pub const CHART_STAT_FILE: &'static str = "chart_stat.json";

/// The text of a file that holds the lines `lines`: each line, followed by
/// a line break.
pub open spec fn lines_text(lines: Seq<Seq<char>>) -> Seq<char>
    decreases lines.len(),
{
    if lines.len() == 0 {
        Seq::empty()
    } else {
        lines_text(lines.drop_last()) + lines.last() + seq!['\n']
    }
}

/// The line is the record of some snapshot, as the running log shows it.
pub open spec fn is_record_line(line: Seq<char>) -> bool {
    exists|record: LogRecord| line == #[trigger] record.text()
}

/// The running log of a campaign: the header, then one record for each
/// reporting tick.
///
/// The log is append-only. It keeps the text that was appended and not yet
/// taken over to the file, and no line that was taken.
pub struct RunningLog {
    pending: String,
    lines: Ghost<Seq<Seq<char>>>,
    taken: Ghost<int>,
}

impl RunningLog {
    /// Every line of the log so far, the header first.
    pub closed spec fn lines(&self) -> Seq<Seq<char>> {
        self.lines@
    }

    /// The lines that were appended and not yet taken.
    pub closed spec fn pending(&self) -> Seq<Seq<char>> {
        self.lines@.skip(self.taken@)
    }

    /// The text that was taken so far: what the file of the log holds, where
    /// all that was taken was appended to it.
    pub closed spec fn written(&self) -> Seq<char> {
        lines_text(self.lines@.take(self.taken@))
    }

    /// The first line is the header, every later line is a record, and the
    /// text kept is that of the lines not yet taken.
    #[verifier::type_invariant]
    pub closed spec fn wf(&self) -> bool {
        &&& self.lines@.len() >= 1
        &&& self.lines@[0] == mini_header_text()
        &&& forall|i: int| 1 <= i < self.lines@.len() ==> is_record_line(#[trigger] self.lines@[i])
        &&& 0 <= self.taken@ <= self.lines@.len()
        &&& self.pending@ == lines_text(self.lines@.skip(self.taken@))
    }

    /// Opens the log: its one line is the header, and nothing is taken yet.
    fn open(header: String) -> (log: RunningLog)
        requires
            header@ == mini_header_text(),
        ensures
            log.lines() == seq![mini_header_text()],
            log.pending() == log.lines(),
            log.written() == Seq::<char>::empty(),
    {
        let ghost lines = seq![header@];
        let mut pending = header;
        pending.append("\n");
        proof {
            reveal_strlit("\n");
            assert(lines.skip(0) =~= lines);
            assert(lines.drop_last() =~= Seq::<Seq<char>>::empty());
            assert(lines_text(lines.drop_last()) =~= Seq::<char>::empty());
            assert("\n"@ =~= seq!['\n']);
            assert(lines.last() == header@);
            assert(pending@ =~= lines_text(lines));
            assert(lines.take(0) =~= Seq::<Seq<char>>::empty());
        }
        RunningLog { pending, lines: Ghost(lines), taken: Ghost(0) }
    }

    /// Appends the record `line` to the log.
    fn append(&mut self, line: &str)
        requires
            is_record_line(line@),
        ensures
            final(self).lines() == old(self).lines().push(line@),
            final(self).pending() == old(self).pending().push(line@),
            final(self).written() == old(self).written(),
    {
        proof {
            use_type_invariant(&*self);
        }
        let ghost lines = self.lines@;
        let ghost taken = self.taken@;
        let mut held = RunningLog {
            pending: String::new(),
            lines: Ghost(lines),
            taken: Ghost(lines.len() as int),
        };
        core::mem::swap(self, &mut held);
        let mut pending = held.pending;
        pending.append(line);
        pending.append("\n");
        proof {
            reveal_strlit("\n");
            let longer = lines.push(line@);
            assert(longer.skip(taken) =~= lines.skip(taken).push(line@));
            assert(longer.skip(taken).drop_last() =~= lines.skip(taken));
            assert(pending@ =~= lines_text(longer.skip(taken)));
            assert(longer.take(taken) =~= lines.take(taken));
        }
        *self = RunningLog { pending, lines: Ghost(lines.push(line@)), taken: Ghost(taken) };
    }

    /// Takes the text that is to be appended to the file of the log: the
    /// lines appended since the last taking, each with its line break. The
    /// log keeps no text after it.
    pub fn take(&mut self) -> (text: String)
        ensures
            text@ == lines_text(old(self).pending()),
            final(self).lines() == old(self).lines(),
            final(self).pending() == Seq::<Seq<char>>::empty(),
            final(self).written() == old(self).written() + text@,
            final(self).written() == lines_text(final(self).lines()),
    {
        proof {
            use_type_invariant(&*self);
        }
        let ghost lines = self.lines@;
        let ghost taken = self.taken@;
        let mut held = RunningLog {
            pending: String::new(),
            lines: Ghost(lines),
            taken: Ghost(lines.len() as int),
        };
        proof {
            assert(lines.skip(lines.len() as int) =~= Seq::<Seq<char>>::empty());
            assert(lines.take(lines.len() as int) =~= lines);
            assert(lines.take(taken) + lines.skip(taken) =~= lines);
            lemma_lines_text_concat(lines.take(taken), lines.skip(taken));
        }
        core::mem::swap(self, &mut held);
        held.pending
    }
}

/// What one reporting tick hands out beside the record that it appends to
/// the running log. Both parts show the snapshot that the record shows.
pub struct Report {
    /// The field-named record that replaces the content of the snapshot
    /// file: the whole snapshot, not a change to an earlier one.
    pub snapshot: Vec<(&'static str, u64)>,
    /// The console summary, where one was asked for.
    pub console: Option<String>,
}

impl Report {
    /// The report renders the snapshot `s`, with a console summary exactly
    /// where `show_ui` asks for one.
    pub open spec fn shows(self, s: Snapshot, show_ui: bool) -> bool {
        &&& named_all(self.snapshot@) == s.fields()
        &&& show_ui ==> (self.console matches Some(text) && text@ == s.console_text())
        &&& !show_ui ==> self.console is None
    }
}

/// Opens the running log of a campaign: its first line is the header that
/// names the columns of every record to come.
pub fn init_stats(stats: &ChartStats) -> (log_f: RunningLog)
    ensures
        log_f.lines() == seq![mini_header_text()],
        log_f.pending() == log_f.lines(),
        log_f.written() == Seq::<char>::empty(),
{
    RunningLog::open(stats.mini_header())
}

/// Renders one snapshot for the three outputs: appends its record to the
/// running log and hands out the content of the snapshot file and the
/// console summary. The snapshot is read once, so that all three show the
/// same state.
pub fn report(log_f: &mut RunningLog, stats: &ChartStats, show_ui: bool) -> (report: Report)
    ensures
        final(log_f).lines() == old(log_f).lines().push(stats@.mini_log_text()),
        final(log_f).pending() == old(log_f).pending().push(stats@.mini_log_text()),
        final(log_f).written() == old(log_f).written(),
        report.shows(stats@, show_ui),
{
    let record = stats.log_record();
    let line = record.line();
    assert(is_record_line(line@)) by {
        assert(line@ == record.text());
    }
    log_f.append(line.as_str());
    let console = if show_ui {
        Some(stats.console())
    } else {
        None
    };
    Report { snapshot: stats.fields(), console }
}

/// One reporting tick: folds the state of the corpus store and of the
/// coverage table, read at time `now`, into the snapshot, and reports the
/// snapshot as it then is.
pub fn show_stats(
    log_f: &mut RunningLog,
    depot: &Depot,
    gb: &GlobalBranches,
    stats: &mut ChartStats,
    now: u64,
    show_ui: bool,
) -> (report: Report)
    ensures
        final(stats)@ == old(stats)@.synced(*depot, *gb, now as nat),
        final(stats)@.wf(),
        final(log_f).lines() == old(log_f).lines().push(final(stats)@.mini_log_text()),
        final(log_f).pending() == old(log_f).pending().push(final(stats)@.mini_log_text()),
        final(log_f).written() == old(log_f).written(),
        report.shows(final(stats)@, show_ui),
{
    stats.sync_from_global(depot, gb, now);
    self::report(log_f, stats, show_ui)
}

/// The text of lines that follow one another is the text of the first
/// followed by the text of the second.
pub proof fn lemma_lines_text_concat(a: Seq<Seq<char>>, b: Seq<Seq<char>>)
    ensures
        lines_text(a + b) == lines_text(a) + lines_text(b),
    decreases b.len(),
{
    if b.len() == 0 {
        assert(a + b =~= a);
    } else {
        lemma_lines_text_concat(a, b.drop_last());
        assert((a + b).drop_last() =~= a + b.drop_last());
        assert((a + b).last() == b.last());
    }
}

/// The header stands before the records: the first line of every running
/// log is the header, every later line is the record of some snapshot, and
/// every line is a single line with as many columns as the header has. What
/// was taken from the log and what it still keeps are, one after the other,
/// the text of these lines, which so begins with the header.
pub proof fn lemma_header_before_records(log_f: RunningLog)
    requires
        log_f.wf(),
    ensures
        log_f.lines().len() >= 1,
        log_f.lines()[0] == mini_header_text(),
        forall|i: int| 1 <= i < log_f.lines().len() ==> is_record_line(#[trigger] log_f.lines()[i]),
        forall|i: int|
            0 <= i < log_f.lines().len() ==> single_line(#[trigger] log_f.lines()[i])
                && column_count(log_f.lines()[i]) == LOG_COLUMNS,
        log_f.written() + lines_text(log_f.pending()) == lines_text(log_f.lines()),
        (mini_header_text() + seq!['\n']).is_prefix_of(lines_text(log_f.lines())),
{
    let lines = log_f.lines();
    lemma_log_lines_match_header(Snapshot::fresh(0));
    assert forall|i: int| 0 <= i < lines.len() implies single_line(#[trigger] lines[i])
        && column_count(lines[i]) == LOG_COLUMNS by {
        if i >= 1 {
            assert(is_record_line(lines[i]));
            let record = choose|record: LogRecord| lines[i] == #[trigger] record.text();
            lemma_decimal_columns_plain(record.values());
            lemma_joined_columns(decimal_columns(record.values()));
            lemma_joined_single_line(decimal_columns(record.values()));
        }
    }
    let taken = log_f.taken@;
    assert(lines.take(taken) + lines.skip(taken) =~= lines);
    lemma_lines_text_concat(lines.take(taken), lines.skip(taken));
    assert(seq![lines[0]] + lines.skip(1) =~= lines);
    lemma_lines_text_concat(seq![lines[0]], lines.skip(1));
    assert(lines_text(seq![lines[0]]) =~= lines[0] + seq!['\n']) by {
        assert(seq![lines[0]].drop_last() =~= Seq::<Seq<char>>::empty());
        assert(lines_text(Seq::<Seq<char>>::empty()) =~= Seq::<char>::empty());
    }
}

/// A tick with unchanged readings is idempotent: the second tick leaves the
/// snapshot as the first made it, so that it appends the same record to the
/// running log and hands out the same field-named record and the same
/// console summary.
pub proof fn lemma_tick_idempotent(s: Snapshot, depot: Depot, gb: GlobalBranches, now: nat)
    ensures
        ({
            let once = s.synced(depot, gb, now);
            let twice = once.synced(depot, gb, now);
            &&& twice == once
            &&& twice.mini_log_text() == once.mini_log_text()
            &&& twice.fields() == once.fields()
            &&& twice.console_text() == once.console_text()
        }),
{
}

} // verus!
