//! The three renderings of a snapshot: the compact record of the running
//! log, the field-named record of the snapshot file, and the console
//! summary.

use vstd::prelude::*;
use vstd::string::*;
use crate::chart::{ChartStats, Field, Snapshot};
use crate::columns::{
    as_nats, column_count, decimal_columns, joined, joined_from, lemma_decimal_columns_plain,
    lemma_joined_columns, lemma_joined_single_line, lemma_number_line_injective, number_line,
    plain, read_number_line, separator, single_line, write_number_line,
};
use crate::decimal::{append_decimal, decimal};

verus! {

/// The number of columns of the running log.
pub const LOG_COLUMNS: usize = 7;

/// The number of fields of a snapshot.
pub const SNAPSHOT_FIELDS: usize = 14;

/// The fields that the running log shows, one column each.
pub open spec fn log_columns() -> Seq<Field> {
    seq![
        Field::Elapsed,
        Field::NumExec,
        Field::Speed,
        Field::NumBranches,
        Field::NumInputs,
        Field::NumTimeout,
        Field::NumCrash,
    ]
}

/// The fields of a snapshot, in the order in which the field-named record
/// lists them.
pub open spec fn snapshot_fields() -> Seq<Field> {
    seq![
        Field::InitTime,
        Field::NumExec,
        Field::NumNormal,
        Field::NumTimeout,
        Field::NumCrash,
        Field::NumImport,
        Field::NumSkip,
        Field::NumError,
        Field::NumBranches,
        Field::NumInputs,
        Field::NumQueued,
        Field::NumFavored,
        Field::Elapsed,
        Field::Speed,
    ]
}

/// The names of the columns of the running log.
pub open spec fn header_columns() -> Seq<Seq<char>> {
    Seq::new(log_columns().len(), |i: int| log_columns()[i].name_text())
}

/// The first line of the running log: the names of its columns.
pub open spec fn mini_header_text() -> Seq<char> {
    joined(header_columns())
}

impl Snapshot {
    /// The numbers that the running log shows of this snapshot, one per
    /// column.
    pub open spec fn log_values(self) -> Seq<nat> {
        Seq::new(log_columns().len(), |i: int| self.value(log_columns()[i]))
    }

    /// The record of this snapshot in the running log.
    pub open spec fn mini_log_text(self) -> Seq<char> {
        number_line(self.log_values())
    }

    /// The field-named record of this snapshot: every field with its name
    /// and its value.
    pub open spec fn fields(self) -> Seq<(Seq<char>, nat)> {
        Seq::new(
            snapshot_fields().len(),
            |i: int| (snapshot_fields()[i].name_text(), self.value(snapshot_fields()[i])),
        )
    }

    /// The console summary of this snapshot.
    pub open spec fn console_text(self) -> Seq<char> {
        "executions: "@ + decimal(self.num_exec) + " ("@ + decimal(self.speed) + "/sec)\n"@
            + "  normal: "@ + decimal(self.num_normal) + ", timeout: "@ + decimal(self.num_timeout)
            + ", crash: "@ + decimal(self.num_crash) + "\n"@ + "  import: "@ + decimal(
            self.num_import,
        ) + ", skip: "@ + decimal(self.num_skip) + ", error: "@ + decimal(self.num_error) + "\n"@
            + "branches: "@ + decimal(self.num_branches) + "\n"@ + "inputs: "@ + decimal(
            self.num_inputs,
        ) + " (queued: "@ + decimal(self.num_queued) + ", favored: "@ + decimal(self.num_favored)
            + ")\n"@ + "time: "@ + decimal(self.elapsed) + "s"@
    }
}

/// A pair of a name and a number, as the field-named record lists them.
pub open spec fn named(pair: (&'static str, u64)) -> (Seq<char>, nat) {
    (pair.0@, pair.1 as nat)
}

/// The names and numbers of a list of pairs.
pub open spec fn named_all(pairs: Seq<(&'static str, u64)>) -> Seq<(Seq<char>, nat)> {
    Seq::new(pairs.len(), |i: int| named(pairs[i]))
}

/// Joins the texts `cols` to one line, a comma and a space between each
/// two.
pub fn join_columns(cols: &Vec<&'static str>) -> (line: String)
    ensures
        line@ == joined(Seq::new(cols@.len(), |i: int| cols@[i]@)),
{
    let ghost texts = Seq::new(cols@.len(), |i: int| cols@[i]@);
    let mut line = String::new();
    if cols.len() == 0 {
        assert(line@ =~= joined(texts));
        return line;
    }
    line.append(cols[0]);
    let mut i: usize = 1;
    proof {
        assert(texts.skip(1) =~= texts.drop_first());
        assert(line@ + joined_from(texts, 1) =~= joined(texts));
    }
    while i < cols.len()
        invariant
            1 <= i <= cols.len(),
            texts == Seq::new(cols@.len(), |i: int| cols@[i]@),
            line@ + joined_from(texts, i as int) == joined(texts),
        decreases cols.len() - i,
    {
        let ghost before = line@;
        line.append(", ");
        line.append(cols[i]);
        proof {
            reveal_strlit(", ");
            assert(", "@ =~= separator());
            let here = texts.skip(i as int);
            assert(here[0] == cols@[i as int]@);
            assert(here.drop_first() =~= texts.skip(i + 1));
            assert(line@ + joined_from(texts, i + 1) =~= before + joined_from(texts, i as int));
        }
        i = i + 1;
    }
    assert(line@ =~= line@ + joined_from(texts, i as int));
    line
}

impl ChartStats {
    /// The first line of the running log: the names of its columns.
    pub fn mini_header(&self) -> (header: String)
        ensures
            header@ == mini_header_text(),
    {
        let cols = vec![
            Field::Elapsed.name(),
            Field::NumExec.name(),
            Field::Speed.name(),
            Field::NumBranches.name(),
            Field::NumInputs.name(),
            Field::NumTimeout.name(),
            Field::NumCrash.name(),
        ];
        assert(Seq::new(cols@.len(), |i: int| cols@[i]@) =~= header_columns());
        join_columns(&cols)
    }

    /// The record of the snapshot in the running log: one line, without a
    /// line break, with a number for each column of the header.
    pub fn mini_log(&self) -> (record: String)
        ensures
            record@ == self@.mini_log_text(),
    {
        let vals = vec![
            self.value(Field::Elapsed),
            self.value(Field::NumExec),
            self.value(Field::Speed),
            self.value(Field::NumBranches),
            self.value(Field::NumInputs),
            self.value(Field::NumTimeout),
            self.value(Field::NumCrash),
        ];
        assert(as_nats(vals@) =~= self@.log_values());
        write_number_line(&vals)
    }

    /// The field-named record of the snapshot: every field with its name and
    /// its value, the whole of the snapshot.
    pub fn fields(&self) -> (record: Vec<(&'static str, u64)>)
        ensures
            named_all(record@) == self@.fields(),
    {
        let record = vec![
            (Field::InitTime.name(), self.value(Field::InitTime)),
            (Field::NumExec.name(), self.value(Field::NumExec)),
            (Field::NumNormal.name(), self.value(Field::NumNormal)),
            (Field::NumTimeout.name(), self.value(Field::NumTimeout)),
            (Field::NumCrash.name(), self.value(Field::NumCrash)),
            (Field::NumImport.name(), self.value(Field::NumImport)),
            (Field::NumSkip.name(), self.value(Field::NumSkip)),
            (Field::NumError.name(), self.value(Field::NumError)),
            (Field::NumBranches.name(), self.value(Field::NumBranches)),
            (Field::NumInputs.name(), self.value(Field::NumInputs)),
            (Field::NumQueued.name(), self.value(Field::NumQueued)),
            (Field::NumFavored.name(), self.value(Field::NumFavored)),
            (Field::Elapsed.name(), self.value(Field::Elapsed)),
            (Field::Speed.name(), self.value(Field::Speed)),
        ];
        assert(named_all(record@) =~= self@.fields());
        record
    }
}

/// One record of the running log: the numbers of its columns.
#[derive(Debug, Clone, Copy, PartialEq, Eq, Structural)]
pub struct LogRecord {
    /// The seconds since the campaign started.
    pub elapsed: u64,
    /// All classified executions since the campaign started.
    pub num_exec: u64,
    /// The executions per second.
    pub speed: u64,
    /// The distinct branches discovered.
    pub num_branches: u64,
    /// The inputs in the corpus.
    pub num_inputs: u64,
    /// The executions classified as timed out.
    pub num_timeout: u64,
    /// The executions classified as crashed.
    pub num_crash: u64,
}

impl LogRecord {
    /// The numbers of the record, one per column of the running log.
    pub open spec fn values(self) -> Seq<nat> {
        seq![
            self.elapsed as nat,
            self.num_exec as nat,
            self.speed as nat,
            self.num_branches as nat,
            self.num_inputs as nat,
            self.num_timeout as nat,
            self.num_crash as nat,
        ]
    }

    /// The line of the record in the running log.
    pub open spec fn text(self) -> Seq<char> {
        number_line(self.values())
    }

    /// Writes the record as a line of the running log.
    pub fn line(&self) -> (line: String)
        ensures
            line@ == self.text(),
    {
        let vals = vec![
            self.elapsed,
            self.num_exec,
            self.speed,
            self.num_branches,
            self.num_inputs,
            self.num_timeout,
            self.num_crash,
        ];
        assert(as_nats(vals@) =~= self.values());
        write_number_line(&vals)
    }

    /// Reads a line of the running log back.
    ///
    /// A line is read where it is the line of some record, and then that
    /// record is returned; every other text is refused, the header too.
    pub fn parse(line: &str) -> (r: Option<LogRecord>)
        ensures
            r matches Some(record) ==> line@ == record.text(),
            r is None ==> forall|record: LogRecord| line@ != #[trigger] record.text(),
    {
        match read_number_line(line, LOG_COLUMNS) {
            Some(vals) => {
                let record = LogRecord {
                    elapsed: vals[0],
                    num_exec: vals[1],
                    speed: vals[2],
                    num_branches: vals[3],
                    num_inputs: vals[4],
                    num_timeout: vals[5],
                    num_crash: vals[6],
                };
                assert(as_nats(vals@) =~= record.values());
                Some(record)
            },
            None => {
                assert forall|record: LogRecord| line@ != #[trigger] record.text() by {
                    let vals = seq![
                        record.elapsed,
                        record.num_exec,
                        record.speed,
                        record.num_branches,
                        record.num_inputs,
                        record.num_timeout,
                        record.num_crash,
                    ];
                    assert(as_nats(vals) =~= record.values());
                    assert(line@ != number_line(as_nats(vals)));
                }
                None
            },
        }
    }
}

impl ChartStats {
    /// The record that the running log shows of the snapshot.
    pub fn log_record(&self) -> (record: LogRecord)
        ensures
            record.values() == self@.log_values(),
    {
        let record = LogRecord {
            elapsed: self.value(Field::Elapsed),
            num_exec: self.value(Field::NumExec),
            speed: self.value(Field::Speed),
            num_branches: self.value(Field::NumBranches),
            num_inputs: self.value(Field::NumInputs),
            num_timeout: self.value(Field::NumTimeout),
            num_crash: self.value(Field::NumCrash),
        };
        assert(record.values() =~= self@.log_values());
        record
    }

    /// The console summary of the snapshot: five lines, the last without a
    /// line break.
    pub fn console(&self) -> (text: String)
        ensures
            text@ == self@.console_text(),
    {
        let mut text = String::new();
        text.append("executions: ");
        append_decimal(&mut text, self.value(Field::NumExec));
        text.append(" (");
        append_decimal(&mut text, self.value(Field::Speed));
        text.append("/sec)\n");
        text.append("  normal: ");
        append_decimal(&mut text, self.value(Field::NumNormal));
        text.append(", timeout: ");
        append_decimal(&mut text, self.value(Field::NumTimeout));
        text.append(", crash: ");
        append_decimal(&mut text, self.value(Field::NumCrash));
        text.append("\n");
        text.append("  import: ");
        append_decimal(&mut text, self.value(Field::NumImport));
        text.append(", skip: ");
        append_decimal(&mut text, self.value(Field::NumSkip));
        text.append(", error: ");
        append_decimal(&mut text, self.value(Field::NumError));
        text.append("\n");
        text.append("branches: ");
        append_decimal(&mut text, self.value(Field::NumBranches));
        text.append("\n");
        text.append("inputs: ");
        append_decimal(&mut text, self.value(Field::NumInputs));
        text.append(" (queued: ");
        append_decimal(&mut text, self.value(Field::NumQueued));
        text.append(", favored: ");
        append_decimal(&mut text, self.value(Field::NumFavored));
        text.append(")\n");
        text.append("time: ");
        append_decimal(&mut text, self.value(Field::Elapsed));
        text.append("s");
        assert(text@ =~= self@.console_text());
        text
    }
}

/// The place of a field in the field-named record.
pub open spec fn field_position(field: Field) -> int {
    match field {
        Field::InitTime => 0,
        Field::NumExec => 1,
        Field::NumNormal => 2,
        Field::NumTimeout => 3,
        Field::NumCrash => 4,
        Field::NumImport => 5,
        Field::NumSkip => 6,
        Field::NumError => 7,
        Field::NumBranches => 8,
        Field::NumInputs => 9,
        Field::NumQueued => 10,
        Field::NumFavored => 11,
        Field::Elapsed => 12,
        Field::Speed => 13,
    }
}

/// The name of a field holds neither a comma nor a line break.
pub proof fn lemma_name_plain(field: Field)
    ensures
        plain(field.name_text()),
{
    reveal_strlit("init_time");
    reveal_strlit("num_exec");
    reveal_strlit("num_normal");
    reveal_strlit("num_timeout");
    reveal_strlit("num_crash");
    reveal_strlit("num_import");
    reveal_strlit("num_skip");
    reveal_strlit("num_error");
    reveal_strlit("num_branches");
    reveal_strlit("num_inputs");
    reveal_strlit("num_queued");
    reveal_strlit("num_favored");
    reveal_strlit("elapsed");
    reveal_strlit("speed");
}

/// The field-named record is complete: it lists every field of the
/// snapshot, once, with its name and its value.
pub proof fn lemma_fields_complete(s: Snapshot, field: Field)
    ensures
        s.fields().len() == SNAPSHOT_FIELDS,
        0 <= field_position(field) < s.fields().len(),
        s.fields()[field_position(field)] == (field.name_text(), s.value(field)),
        forall|i: int|
            0 <= i < s.fields().len() && i != field_position(field) ==> snapshot_fields()[i]
                != field,
{
}

/// Every line of the running log has the columns of the header: the header
/// and the record of any snapshot are single lines of as many columns as the
/// log has.
pub proof fn lemma_log_lines_match_header(s: Snapshot)
    ensures
        column_count(mini_header_text()) == LOG_COLUMNS,
        column_count(s.mini_log_text()) == column_count(mini_header_text()),
        single_line(mini_header_text()),
        single_line(s.mini_log_text()),
{
    assert forall|i: int| 0 <= i < header_columns().len() implies plain(
        #[trigger] header_columns()[i],
    ) by {
        lemma_name_plain(log_columns()[i]);
    }
    lemma_joined_columns(header_columns());
    lemma_joined_single_line(header_columns());
    lemma_decimal_columns_plain(s.log_values());
    lemma_joined_columns(decimal_columns(s.log_values()));
    lemma_joined_single_line(decimal_columns(s.log_values()));
}

/// The running log and the field-named record of one snapshot show the
/// same numbers: whatever record is read back from the snapshot's line of the
/// log holds, in each column, the value that the field-named record lists
/// under that column's name.
pub proof fn lemma_log_agrees_with_fields(s: Snapshot, record: LogRecord)
    requires
        record.text() == s.mini_log_text(),
    ensures
        record.values() == s.log_values(),
        forall|i: int|
            0 <= i < log_columns().len() ==> #[trigger] s.fields()[field_position(
                log_columns()[i],
            )] == (header_columns()[i], record.values()[i]),
{
    lemma_number_line_injective(record.values(), s.log_values());
    assert forall|i: int| 0 <= i < log_columns().len() implies #[trigger] s.fields()[field_position(
        log_columns()[i],
    )] == (header_columns()[i], record.values()[i]) by {
        lemma_fields_complete(s, log_columns()[i]);
    }
}

} // verus!
