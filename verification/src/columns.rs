//! Lines of columns: texts joined by a comma and a space, and lines of
//! decimal numbers written and read back.

use vstd::prelude::*;
use vstd::string::*;
use crate::decimal::{
    all_digits, append_decimal, canonical, decimal, digits_value, is_digit, lemma_decimal_canonical,
    lemma_decimal_value, lemma_prefix_value, lemma_value_decimal,
};

verus! {

/// What stands between two columns of a line: a comma and a space.
pub open spec fn separator() -> Seq<char> {
    seq![',', ' ']
}

/// The line whose columns are `cols`, in order.
pub open spec fn joined(cols: Seq<Seq<char>>) -> Seq<char>
    decreases cols.len(),
{
    if cols.len() == 0 {
        Seq::empty()
    } else if cols.len() == 1 {
        cols[0]
    } else {
        cols[0] + separator() + joined(cols.drop_first())
    }
}

/// The decimal texts of the numbers `vals`, one column each.
pub open spec fn decimal_columns(vals: Seq<nat>) -> Seq<Seq<char>> {
    Seq::new(vals.len(), |i: int| decimal(vals[i]))
}

/// The line that shows the numbers `vals` in decimal.
pub open spec fn number_line(vals: Seq<nat>) -> Seq<char> {
    joined(decimal_columns(vals))
}

/// The numbers of a vector as mathematical integers.
pub open spec fn as_nats(vals: Seq<u64>) -> Seq<nat> {
    Seq::new(vals.len(), |i: int| vals[i] as nat)
}

/// The number of commas in a text.
pub open spec fn comma_count(s: Seq<char>) -> nat
    decreases s.len(),
{
    if s.len() == 0 {
        0
    } else {
        comma_count(s.drop_last()) + if s.last() == ',' {
            1nat
        } else {
            0nat
        }
    }
}

/// The number of columns of a line: one more than it has commas.
pub open spec fn column_count(line: Seq<char>) -> nat {
    comma_count(line) + 1
}

/// The text can stand as a column and in a line: it holds neither a comma
/// nor a line break.
pub open spec fn plain(s: Seq<char>) -> bool {
    forall|i: int| 0 <= i < s.len() ==> #[trigger] s[i] != ',' && s[i] != '\n'
}

/// The text holds no line break.
pub open spec fn single_line(s: Seq<char>) -> bool {
    forall|i: int| 0 <= i < s.len() ==> #[trigger] s[i] != '\n'
}

/// The commas of a concatenation are those of its two parts.
pub proof fn lemma_comma_count_concat(a: Seq<char>, b: Seq<char>)
    ensures
        comma_count(a + b) == comma_count(a) + comma_count(b),
    decreases b.len(),
{
    if b.len() == 0 {
        assert(a + b =~= a);
    } else {
        lemma_comma_count_concat(a, b.drop_last());
        assert((a + b).drop_last() =~= a + b.drop_last());
        assert((a + b).last() == b.last());
    }
}

/// A plain text holds no comma.
pub proof fn lemma_comma_count_plain(s: Seq<char>)
    requires
        plain(s),
    ensures
        comma_count(s) == 0,
    decreases s.len(),
{
    if s.len() > 0 {
        let head = s.drop_last();
        assert forall|i: int| 0 <= i < head.len() implies #[trigger] head[i] != ',' && head[i]
            != '\n' by {
            assert(head[i] == s[i]);
        }
        lemma_comma_count_plain(head);
        assert(s[s.len() - 1] != ',');
    }
}

/// A line of plain columns has as many columns as were joined.
pub proof fn lemma_joined_columns(cols: Seq<Seq<char>>)
    requires
        cols.len() >= 1,
        forall|i: int| 0 <= i < cols.len() ==> plain(#[trigger] cols[i]),
    ensures
        column_count(joined(cols)) == cols.len(),
    decreases cols.len(),
{
    lemma_comma_count_plain(cols[0]);
    if cols.len() > 1 {
        let rest = cols.drop_first();
        assert forall|i: int| 0 <= i < rest.len() implies plain(#[trigger] rest[i]) by {
            assert(rest[i] == cols[i + 1]);
        }
        lemma_joined_columns(rest);
        let sep = separator();
        assert(comma_count(sep) == 1) by {
            assert(sep.drop_last() =~= seq![',']);
            assert(seq![','].drop_last() =~= Seq::<char>::empty());
            assert(comma_count(Seq::<char>::empty()) == 0);
            assert(comma_count(seq![',']) == 1);
        }
        lemma_comma_count_concat(cols[0], sep);
        lemma_comma_count_concat(cols[0] + sep, joined(rest));
    }
}

/// Every character of a line is a character of one of its columns, a comma
/// or a space: what holds of all of those holds of every character of the
/// line.
pub proof fn lemma_joined_chars(cols: Seq<Seq<char>>, ok: spec_fn(char) -> bool)
    requires
        ok(','),
        ok(' '),
        forall|i: int, j: int|
            0 <= i < cols.len() && 0 <= j < cols[i].len() ==> ok(#[trigger] cols[i][j]),
    ensures
        forall|j: int| 0 <= j < joined(cols).len() ==> ok(#[trigger] joined(cols)[j]),
    decreases cols.len(),
{
    if cols.len() == 1 {
        assert forall|j: int| 0 <= j < joined(cols).len() implies ok(#[trigger] joined(cols)[j]) by {
            assert(joined(cols)[j] == cols[0][j]);
        }
    } else if cols.len() > 1 {
        let rest = cols.drop_first();
        assert forall|i: int, j: int| 0 <= i < rest.len() && 0 <= j < rest[i].len() implies ok(
            #[trigger] rest[i][j],
        ) by {
            assert(rest[i][j] == cols[i + 1][j]);
        }
        lemma_joined_chars(rest, ok);
        let line = joined(cols);
        let sep = separator();
        assert(line == cols[0] + sep + joined(rest));
        assert forall|j: int| 0 <= j < line.len() implies ok(#[trigger] line[j]) by {
            if j < cols[0].len() {
                assert(line[j] == cols[0][j]);
            } else if j < cols[0].len() + 2 {
                assert(line[j] == sep[j - cols[0].len()]);
            } else {
                assert(line[j] == joined(rest)[j - cols[0].len() - 2]);
            }
        }
    }
}

/// A line of plain columns is a single line.
pub proof fn lemma_joined_single_line(cols: Seq<Seq<char>>)
    requires
        forall|i: int| 0 <= i < cols.len() ==> plain(#[trigger] cols[i]),
    ensures
        single_line(joined(cols)),
{
    let ok = |c: char| c != '\n';
    assert forall|i: int, j: int| 0 <= i < cols.len() && 0 <= j < cols[i].len() implies ok(
        #[trigger] cols[i][j],
    ) by {
        assert(plain(cols[i]));
    }
    lemma_joined_chars(cols, ok);
    assert forall|j: int| 0 <= j < joined(cols).len() implies #[trigger] joined(cols)[j]
        != '\n' by {
        assert(ok(joined(cols)[j]));
    }
}

/// A decimal text is plain, and so is every column of a line of numbers.
pub proof fn lemma_decimal_columns_plain(vals: Seq<nat>)
    ensures
        forall|i: int| 0 <= i < vals.len() ==> plain(#[trigger] decimal_columns(vals)[i]),
{
    assert forall|i: int| 0 <= i < vals.len() implies plain(#[trigger] decimal_columns(vals)[i]) by {
        lemma_decimal_canonical(vals[i]);
        let text = decimal(vals[i]);
        assert forall|j: int| 0 <= j < text.len() implies #[trigger] text[j] != ',' && text[j]
            != '\n' by {
            assert(is_digit(text[j]));
        }
    }
}

/// The end of the longest run of digits of `line` that begins at `start`.
pub open spec fn digit_run_end(line: Seq<char>, start: int) -> int
    decreases line.len() - start,
{
    if 0 <= start < line.len() && is_digit(line[start]) {
        digit_run_end(line, start + 1)
    } else {
        start
    }
}

/// A separator stands in `line` at `pos`.
pub open spec fn separator_at(line: Seq<char>, pos: int) -> bool {
    &&& 0 <= pos
    &&& pos + 2 <= line.len()
    &&& line[pos] == ','
    &&& line[pos + 1] == ' '
}

/// Reads `k` columns of canonical decimal numbers from `line`, beginning at
/// `pos` and ending with the line; `None` where the rest of the line is not
/// of that form.
pub open spec fn scan_columns(line: Seq<char>, pos: int, k: nat) -> Option<Seq<nat>>
    decreases k,
{
    let end = digit_run_end(line, pos);
    let run = line.subrange(pos, end);
    if k == 0 || pos < 0 || pos > line.len() || !canonical(run) {
        None
    } else if k == 1 {
        if end == line.len() {
            Some(seq![digits_value(run)])
        } else {
            None
        }
    } else if !separator_at(line, end) {
        None
    } else {
        match scan_columns(line, end + 2, (k - 1) as nat) {
            Some(rest) => Some(seq![digits_value(run)] + rest),
            None => None,
        }
    }
}

/// The run of digits that begins at `start` lies within the line, holds
/// digits only, and is followed by no digit.
pub proof fn lemma_digit_run_end(line: Seq<char>, start: int)
    requires
        0 <= start <= line.len(),
    ensures
        start <= digit_run_end(line, start) <= line.len(),
        all_digits(line.subrange(start, digit_run_end(line, start))),
        digit_run_end(line, start) < line.len() ==> !is_digit(line[digit_run_end(line, start)]),
    decreases line.len() - start,
{
    if start < line.len() && is_digit(line[start]) {
        lemma_digit_run_end(line, start + 1);
        let end = digit_run_end(line, start);
        let run = line.subrange(start, end);
        let tail = line.subrange(start + 1, end);
        assert forall|i: int| 0 <= i < run.len() implies is_digit(#[trigger] run[i]) by {
            if i > 0 {
                assert(run[i] == tail[i - 1]);
            }
        }
    }
}

/// Digits from `start` up to `end`, and no digit at `end`: the run that
/// begins at `start` ends at `end`.
pub proof fn lemma_digit_run_found(line: Seq<char>, start: int, end: int)
    requires
        0 <= start <= end <= line.len(),
        all_digits(line.subrange(start, end)),
        end < line.len() ==> !is_digit(line[end]),
    ensures
        digit_run_end(line, start) == end,
    decreases end - start,
{
    if start < end {
        let run = line.subrange(start, end);
        assert(run[0] == line[start]);
        let tail = line.subrange(start + 1, end);
        assert forall|i: int| 0 <= i < tail.len() implies is_digit(#[trigger] tail[i]) by {
            assert(tail[i] == run[i + 1]);
        }
        lemma_digit_run_found(line, start + 1, end);
    }
}

/// What `scan_columns` reads is what the line shows: the rest of the line
/// from `pos` is the line of the numbers read.
pub proof fn lemma_scan_sound(line: Seq<char>, pos: int, k: nat)
    requires
        scan_columns(line, pos, k) is Some,
    ensures
        0 <= pos <= line.len(),
        scan_columns(line, pos, k)->0.len() == k,
        line.skip(pos) == number_line(scan_columns(line, pos, k)->0),
    decreases k,
{
    let end = digit_run_end(line, pos);
    let run = line.subrange(pos, end);
    let vals = scan_columns(line, pos, k)->0;
    lemma_digit_run_end(line, pos);
    lemma_value_decimal(run);
    if k == 1 {
        assert(decimal_columns(vals) =~= seq![run]);
        assert(line.skip(pos) =~= run);
    } else {
        lemma_scan_sound(line, end + 2, (k - 1) as nat);
        let rest = scan_columns(line, end + 2, (k - 1) as nat)->0;
        assert(vals == seq![digits_value(run)] + rest);
        let cols = decimal_columns(vals);
        assert(cols[0] == run);
        assert(cols.drop_first() =~= decimal_columns(rest));
        assert(line.skip(pos) =~= run + separator() + line.skip(end + 2));
    }
}

/// Every line of numbers is read back as those numbers: where the rest of
/// `line` from `pos` is the line of `vals`, `scan_columns` reads `vals`.
pub proof fn lemma_scan_complete(line: Seq<char>, pos: int, vals: Seq<nat>)
    requires
        0 <= pos <= line.len(),
        vals.len() >= 1,
        line.skip(pos) == number_line(vals),
    ensures
        scan_columns(line, pos, vals.len()) == Some(vals),
    decreases vals.len(),
{
    let cols = decimal_columns(vals);
    let first = decimal(vals[0]);
    let rest_line = line.skip(pos);
    lemma_decimal_canonical(vals[0]);
    lemma_decimal_value(vals[0]);
    assert(cols[0] == first);
    if vals.len() == 1 {
        assert(rest_line == first);
        assert(line.subrange(pos, line.len() as int) =~= first);
        lemma_digit_run_found(line, pos, line.len() as int);
        assert(scan_columns(line, pos, 1) == Some(seq![vals[0]]));
        assert(seq![vals[0]] =~= vals);
    } else {
        let tail = vals.drop_first();
        assert(cols.drop_first() =~= decimal_columns(tail));
        assert(rest_line == first + separator() + number_line(tail));
        let end = pos + first.len();
        assert(line.subrange(pos, end) =~= first) by {
            assert forall|i: int| 0 <= i < first.len() implies line.subrange(pos, end)[i]
                == first[i] by {
                assert(rest_line[i] == first[i]);
            }
        }
        assert(line[end] == ',') by {
            assert(rest_line[end - pos] == separator()[0]);
        }
        assert(line[end + 1] == ' ') by {
            assert(rest_line[end - pos + 1] == separator()[1]);
        }
        lemma_digit_run_found(line, pos, end);
        assert(line.skip(end + 2) =~= number_line(tail)) by {
            assert forall|i: int| 0 <= i < number_line(tail).len() implies line.skip(end + 2)[i]
                == number_line(tail)[i] by {
                assert(rest_line[end - pos + 2 + i] == number_line(tail)[i]);
            }
        }
        lemma_scan_complete(line, end + 2, tail);
        assert(seq![vals[0]] + tail =~= vals);
    }
}

/// A line of numbers shows its numbers and no others: two sequences of
/// equally many numbers with the same line are the same sequence.
pub proof fn lemma_number_line_injective(a: Seq<nat>, b: Seq<nat>)
    requires
        a.len() == b.len(),
        number_line(a) == number_line(b),
    ensures
        a == b,
{
    if a.len() == 0 {
        assert(a =~= b);
    } else {
        let line = number_line(a);
        assert(line.skip(0) =~= line);
        lemma_scan_complete(line, 0, a);
        lemma_scan_complete(line, 0, b);
    }
}

/// A line of numbers is ASCII text.
pub proof fn lemma_number_line_ascii(vals: Seq<nat>)
    ensures
        vstd::utf8::is_ascii_chars(number_line(vals)),
{
    let cols = decimal_columns(vals);
    let ok = |c: char| '\0' <= c <= '\u{7f}';
    assert forall|i: int, j: int| 0 <= i < cols.len() && 0 <= j < cols[i].len() implies ok(
        #[trigger] cols[i][j],
    ) by {
        lemma_decimal_canonical(vals[i]);
        assert(is_digit(decimal(vals[i])[j]));
    }
    lemma_joined_chars(cols, ok);
    assert forall|j: int| 0 <= j < number_line(vals).len() implies '\0' <= #[trigger] number_line(
        vals,
    )[j] <= '\u{7f}' by {
        assert(ok(number_line(vals)[j]));
    }
}

/// The columns of `cols` from the `i`-th on, each with a separator before
/// it.
pub open spec fn joined_from(cols: Seq<Seq<char>>, i: int) -> Seq<char> {
    if i >= cols.len() {
        Seq::empty()
    } else {
        separator() + joined(cols.skip(i))
    }
}

/// Writes the numbers `vals` as one line: their decimal texts, joined by a
/// comma and a space.
pub fn write_number_line(vals: &Vec<u64>) -> (line: String)
    ensures
        line@ == number_line(as_nats(vals@)),
{
    let ghost cols = decimal_columns(as_nats(vals@));
    let mut line = String::new();
    if vals.len() == 0 {
        assert(line@ =~= joined(cols));
        return line;
    }
    append_decimal(&mut line, vals[0]);
    let mut i: usize = 1;
    proof {
        assert(cols[0] == decimal(vals@[0] as nat));
        assert(cols.skip(1) =~= cols.drop_first());
        assert(line@ + joined_from(cols, 1) =~= joined(cols));
    }
    while i < vals.len()
        invariant
            1 <= i <= vals.len(),
            cols == decimal_columns(as_nats(vals@)),
            line@ + joined_from(cols, i as int) == joined(cols),
        decreases vals.len() - i,
    {
        let ghost before = line@;
        line.append(", ");
        append_decimal(&mut line, vals[i]);
        proof {
            reveal_strlit(", ");
            assert(", "@ =~= separator());
            let here = cols.skip(i as int);
            assert(here[0] == decimal(vals@[i as int] as nat));
            assert(here.drop_first() =~= cols.skip(i + 1));
            assert(line@ + joined_from(cols, i + 1) =~= before + joined_from(cols, i as int));
        }
        i = i + 1;
    }
    assert(line@ =~= line@ + joined_from(cols, i as int));
    line
}

/// The bytes of an ASCII text are its characters.
spec fn bytes_of(text: Seq<char>, bytes: Seq<u8>) -> bool {
    &&& vstd::utf8::is_ascii_chars(text)
    &&& bytes.len() == text.len()
    &&& forall|i: int| 0 <= i < text.len() ==> #[trigger] bytes[i] == text[i] as u8
}

/// Reads the run of digits that begins at `start` in the ASCII text whose
/// bytes are `bytes`: where it ends, and the number it denotes, if the run
/// is a canonical numeral of a number that fits.
fn read_number(bytes: &[u8], start: usize, Ghost(line): Ghost<Seq<char>>) -> (r: (
    usize,
    Option<u64>,
))
    requires
        bytes_of(line, bytes@),
        start <= line.len(),
    ensures
        r.0 == digit_run_end(line, start as int),
        start <= r.0 <= line.len(),
        match r.1 {
            Some(v) => canonical(line.subrange(start as int, r.0 as int)) && v == digits_value(
                line.subrange(start as int, r.0 as int),
            ),
            None => !canonical(line.subrange(start as int, r.0 as int)) || digits_value(
                line.subrange(start as int, r.0 as int),
            ) > u64::MAX,
        },
{
    let n = bytes.len();
    let mut end = start;
    while end < n && 48 <= bytes[end] && bytes[end] <= 57
        invariant
            bytes_of(line, bytes@),
            n == line.len(),
            start <= end <= n,
            all_digits(line.subrange(start as int, end as int)),
        decreases n - end,
    {
        proof {
            let run = line.subrange(start as int, end as int);
            let next = line.subrange(start as int, end + 1);
            assert(bytes@[end as int] == line[end as int] as u8);
            assert forall|i: int| 0 <= i < next.len() implies is_digit(#[trigger] next[i]) by {
                if i < run.len() {
                    assert(next[i] == run[i]);
                }
            }
        }
        end = end + 1;
    }
    let ghost run = line.subrange(start as int, end as int);
    proof {
        if end < n {
            assert(bytes@[end as int] == line[end as int] as u8);
        }
        lemma_digit_run_found(line, start as int, end as int);
    }
    if end == start {
        return (end, None);
    }
    assert(bytes@[start as int] == line[start as int] as u8);
    assert(run[0] == line[start as int]);
    if end - start > 1 && bytes[start] == 48 {
        return (end, None);
    }
    assert(canonical(run));
    let mut value: u64 = 0;
    let mut i = start;
    proof {
        assert(run.take(0) =~= Seq::<char>::empty());
    }
    while i < end
        invariant
            bytes_of(line, bytes@),
            start <= i <= end <= line.len(),
            end == digit_run_end(line, start as int),
            run == line.subrange(start as int, end as int),
            canonical(run),
            value == digits_value(run.take(i - start)),
        decreases end - i,
    {
        proof {
            assert(bytes@[i as int] == line[i as int] as u8);
            assert(run[i - start] == line[i as int]);
            assert(is_digit(run[i - start]));
        }
        let digit = (bytes[i] - 48) as u64;
        proof {
            let head = run.take(i - start);
            let longer = run.take(i - start + 1);
            assert(longer.drop_last() =~= head);
            assert(longer.last() == run[i - start]);
            assert(digits_value(longer) == value * 10 + digit);
            lemma_prefix_value(run, i - start + 1);
        }
        let tenfold = match value.checked_mul(10) {
            Some(t) => t,
            None => {
                return (end, None);
            },
        };
        value = match tenfold.checked_add(digit) {
            Some(v) => v,
            None => {
                return (end, None);
            },
        };
        i = i + 1;
    }
    assert(run.take(end - start) =~= run);
    (end, Some(value))
}

/// The numbers `prefix` followed by what a scan has read, if it has read
/// anything.
spec fn prepended(prefix: Seq<nat>, scanned: Option<Seq<nat>>) -> Option<Seq<nat>> {
    match scanned {
        Some(rest) => Some(prefix + rest),
        None => None,
    }
}

/// A line that `scan_columns` cannot read is the line of no `k` numbers.
proof fn lemma_unreadable(line: Seq<char>, k: nat)
    requires
        k >= 1,
        scan_columns(line, 0, k) is None,
    ensures
        forall|vals: Seq<nat>| vals.len() == k ==> line != #[trigger] number_line(vals),
{
    assert forall|vals: Seq<nat>| vals.len() == k implies line != #[trigger] number_line(vals) by {
        if line == number_line(vals) {
            assert(line.skip(0) =~= line);
            lemma_scan_complete(line, 0, vals);
        }
    }
}

/// A line in which `scan_columns` reads a number that does not fit is the
/// line of no `k` numbers that fit.
proof fn lemma_too_large(line: Seq<char>, k: nat, col: int)
    requires
        k >= 1,
        0 <= col < k,
        scan_columns(line, 0, k) matches Some(read) && read[col] > u64::MAX,
    ensures
        forall|vals: Seq<u64>| vals.len() == k ==> line != #[trigger] number_line(as_nats(vals)),
{
    assert forall|vals: Seq<u64>| vals.len() == k implies line != #[trigger] number_line(
        as_nats(vals),
    ) by {
        if line == number_line(as_nats(vals)) {
            assert(line.skip(0) =~= line);
            lemma_scan_complete(line, 0, as_nats(vals));
            assert(as_nats(vals)[col] == vals[col] as nat);
        }
    }
}

/// What is the line of no `k` numbers is the line of no `k` numbers that
/// fit.
proof fn lemma_unreadable_fitting(line: Seq<char>, k: nat)
    requires
        forall|vals: Seq<nat>| vals.len() == k ==> line != #[trigger] number_line(vals),
    ensures
        forall|vals: Seq<u64>| vals.len() == k ==> line != #[trigger] number_line(as_nats(vals)),
{
    assert forall|vals: Seq<u64>| vals.len() == k implies line != #[trigger] number_line(
        as_nats(vals),
    ) by {
        assert(as_nats(vals).len() == k);
    }
}

/// Where the numeral at `pos` is not canonical or denotes a number that
/// does not fit, and the columns before it were read as `before`, the line
/// is the line of no `k` numbers that fit.
proof fn lemma_number_refused(line: Seq<char>, k: nat, pos: int, before: Seq<nat>)
    requires
        k >= 1,
        before.len() < k,
        0 <= pos <= line.len(),
        scan_columns(line, 0, k) == prepended(
            before,
            scan_columns(line, pos, (k - before.len()) as nat),
        ),
        ({
            let run = line.subrange(pos, digit_run_end(line, pos));
            !canonical(run) || digits_value(run) > u64::MAX
        }),
    ensures
        forall|vals: Seq<u64>| vals.len() == k ==> line != #[trigger] number_line(as_nats(vals)),
{
    let run = line.subrange(pos, digit_run_end(line, pos));
    let here = scan_columns(line, pos, (k - before.len()) as nat);
    if here is Some {
        assert(here->0[0] == digits_value(run));
        assert((before + here->0)[before.len() as int] == here->0[0]);
        lemma_too_large(line, k, before.len() as int);
    } else {
        lemma_unreadable(line, k);
        lemma_unreadable_fitting(line, k);
    }
}

/// Reads a line of `k` numbers back.
///
/// The line is read where it is exactly what `write_number_line` writes for
/// some `k` numbers, and then those numbers are returned; every other line
/// is refused.
pub fn read_number_line(line: &str, k: usize) -> (r: Option<Vec<u64>>)
    ensures
        r matches Some(vals) ==> vals@.len() == k && line@ == number_line(as_nats(vals@)),
        r is None ==> forall|vals: Seq<u64>|
            vals.len() == k ==> line@ != #[trigger] number_line(as_nats(vals)),
{
    broadcast use is_ascii_spec_bytes;

    let mut vals: Vec<u64> = Vec::new();
    if k == 0 {
        if line.is_empty() {
            assert(decimal_columns(as_nats(vals@)) =~= Seq::<Seq<char>>::empty());
            assert(line@ =~= number_line(as_nats(vals@)));
            return Some(vals);
        }
        assert forall|w: Seq<u64>| w.len() == k implies line@ != #[trigger] number_line(
            as_nats(w),
        ) by {
            assert(decimal_columns(as_nats(w)) =~= Seq::<Seq<char>>::empty());
        }
        return None;
    }
    if !line.is_ascii() {
        assert forall|w: Seq<u64>| w.len() == k implies line@ != #[trigger] number_line(
            as_nats(w),
        ) by {
            lemma_number_line_ascii(as_nats(w));
        }
        return None;
    }
    let bytes = line.as_bytes();
    let n = bytes.len();
    assert(bytes_of(line@, bytes@));
    let mut pos: usize = 0;
    let mut col: usize = 0;
    assert(as_nats(vals@) + scan_columns(line@, 0, k as nat)->0 =~= scan_columns(
        line@,
        0,
        k as nat,
    )->0);
    while col + 1 < k
        invariant
            bytes_of(line@, bytes@),
            n == line@.len(),
            col < k,
            pos <= n,
            vals@.len() == col,
            scan_columns(line@, 0, k as nat) == prepended(
                as_nats(vals@),
                scan_columns(line@, pos as int, (k - col) as nat),
            ),
        decreases k - col,
    {
        let ghost before = as_nats(vals@);
        let (end, number) = read_number(bytes, pos, Ghost(line@));
        let v = match number {
            Some(v) => v,
            None => {
                proof {
                    lemma_number_refused(line@, k as nat, pos as int, before);
                }
                return None;
            },
        };
        if !(n - end >= 2 && bytes[end] == 44 && bytes[end + 1] == 32) {
            proof {
                if n - end >= 2 {
                    assert(bytes@[end as int] == line@[end as int] as u8);
                    assert(bytes@[end + 1] == line@[end + 1] as u8);
                }
                assert(!separator_at(line@, end as int));
                lemma_unreadable(line@, k as nat);
                lemma_unreadable_fitting(line@, k as nat);
            }
            return None;
        }
        proof {
            assert(bytes@[end as int] == line@[end as int] as u8);
            assert(bytes@[end + 1] == line@[end + 1] as u8);
            assert(separator_at(line@, end as int));
        }
        vals.push(v);
        proof {
            assert(as_nats(vals@) =~= before + seq![v as nat]);
            let next = scan_columns(line@, end + 2, (k - col - 1) as nat);
            if next is Some {
                assert(before + (seq![v as nat] + next->0) =~= as_nats(vals@) + next->0);
            }
        }
        pos = end + 2;
        col = col + 1;
    }
    let ghost before = as_nats(vals@);
    let (end, number) = read_number(bytes, pos, Ghost(line@));
    let v = match number {
        Some(v) => v,
        None => {
            proof {
                lemma_number_refused(line@, k as nat, pos as int, before);
            }
            return None;
        },
    };
    if end != n {
        proof {
            lemma_unreadable(line@, k as nat);
            lemma_unreadable_fitting(line@, k as nat);
        }
        return None;
    }
    vals.push(v);
    proof {
        assert(as_nats(vals@) =~= before + seq![v as nat]);
        lemma_scan_sound(line@, 0, k as nat);
        assert(line@.skip(0) =~= line@);
    }
    Some(vals)
}

} // verus!
