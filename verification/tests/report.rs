use angora_stats::{
    init_stats, report, show_stats, ChartStats, Depot, Field, GlobalBranches, LogRecord, Report,
    RunningLog, StatusType, CHART_STAT_FILE,
};

const HEADER: &str = "elapsed, num_exec, speed, num_branches, num_inputs, num_timeout, num_crash";

fn depot(num_inputs: u64, num_queued: u64, num_favored: u64) -> Depot {
    Depot { num_inputs, num_queued, num_favored }
}

fn branches(num_branches: u64) -> GlobalBranches {
    GlobalBranches { num_branches }
}

fn campaign(init_time: u64) -> ChartStats {
    let mut stats = ChartStats::new(init_time);
    for _ in 0..7 {
        stats.record(StatusType::Normal);
    }
    for _ in 0..2 {
        stats.record(StatusType::Timeout);
    }
    stats.record(StatusType::Crash);
    stats
}

fn opened(stats: &ChartStats) -> RunningLog {
    let mut log_f = init_stats(stats);
    assert_eq!(log_f.take(), format!("{}\n", HEADER));
    log_f
}

fn tick(
    log_f: &mut RunningLog,
    stats: &mut ChartStats,
    depot: &Depot,
    gb: &GlobalBranches,
    now: u64,
    show_ui: bool,
) -> (String, Report) {
    let r = show_stats(log_f, depot, gb, stats, now, show_ui);
    let mut line = log_f.take();
    assert_eq!(line.pop(), Some('\n'));
    assert!(!line.contains('\n'));
    (line, r)
}

fn field_of(snapshot: &[(&'static str, u64)], name: &str) -> u64 {
    let hits: Vec<u64> = snapshot.iter().filter(|(n, _)| *n == name).map(|(_, v)| *v).collect();
    assert_eq!(hits.len(), 1);
    hits[0]
}

fn as_json(snapshot: &[(&'static str, u64)]) -> String {
    let mut object = serde_json::Map::new();
    for (name, value) in snapshot {
        let earlier = object.insert(name.to_string(), serde_json::Value::from(*value));
        assert!(earlier.is_none());
    }
    serde_json::to_string(&object).unwrap()
}

#[test]
fn the_header_names_the_columns() {
    let stats = ChartStats::new(0);
    assert_eq!(stats.mini_header(), HEADER);
    assert_eq!(campaign(77).mini_header(), HEADER);
}

#[test]
fn a_new_log_holds_the_header_and_nothing_else() {
    let mut log_f = init_stats(&campaign(5));
    assert_eq!(log_f.take(), format!("{}\n", HEADER));
    assert_eq!(log_f.take(), "");
}

#[test]
fn the_record_shows_the_snapshot() {
    let mut stats = campaign(100);
    stats.sync_from_global(&depot(5, 3, 1), &branches(17), 103);
    assert_eq!(stats.mini_log(), "3, 10, 3, 17, 5, 2, 1");
    assert_eq!(stats.log_record().line(), "3, 10, 3, 17, 5, 2, 1");
}

#[test]
fn the_record_of_a_new_snapshot_is_all_zero() {
    assert_eq!(ChartStats::new(9).mini_log(), "0, 0, 0, 0, 0, 0, 0");
}

#[test]
fn a_tick_appends_one_record() {
    let mut stats = campaign(100);
    let mut log_f = opened(&stats);
    show_stats(&mut log_f, &depot(5, 3, 1), &branches(17), &mut stats, 103, false);
    assert_eq!(log_f.take(), "3, 10, 3, 17, 5, 2, 1\n");
    assert_eq!(log_f.take(), "");
    report(&mut log_f, &stats, false);
    assert_eq!(log_f.take(), "3, 10, 3, 17, 5, 2, 1\n");
}

#[test]
fn what_is_not_taken_is_kept_in_order() {
    let mut stats = ChartStats::new(0);
    let mut log_f = init_stats(&stats);
    show_stats(&mut log_f, &depot(1, 0, 0), &branches(2), &mut stats, 1, false);
    stats.record(StatusType::Crash);
    show_stats(&mut log_f, &depot(3, 0, 0), &branches(4), &mut stats, 2, false);
    assert_eq!(log_f.take(), format!("{}\n1, 0, 0, 2, 1, 0, 0\n2, 1, 0, 4, 3, 0, 1\n", HEADER));
    assert_eq!(log_f.take(), "");
}

#[test]
fn the_header_is_the_first_line_and_every_record_has_its_columns() {
    let mut stats = ChartStats::new(1000);
    let mut log_f = init_stats(&stats);
    let mut file = String::new();
    for tick in 0..50u64 {
        stats.record(if tick % 4 == 0 { StatusType::Crash } else { StatusType::Normal });
        show_stats(
            &mut log_f,
            &depot(tick * 1000, tick, 1),
            &branches(tick * tick),
            &mut stats,
            1000 + tick * 37,
            false,
        );
        if tick % 7 == 0 {
            file.push_str(&log_f.take());
        }
    }
    file.push_str(&log_f.take());
    assert!(file.ends_with('\n'));
    let lines: Vec<&str> = file[..file.len() - 1].split('\n').collect();
    assert_eq!(lines.len(), 51);
    assert_eq!(lines[0], HEADER);
    let columns = lines[0].split(", ").count();
    assert_eq!(columns, 7);
    for line in &lines[1..] {
        assert_eq!(line.split(", ").count(), columns);
        assert_eq!(line.matches(',').count() + 1, columns);
        assert!(LogRecord::parse(line).is_some());
    }
    assert_eq!(LogRecord::parse(lines[50]).unwrap().num_exec, 50);
}

#[test]
fn the_console_summary() {
    let mut stats = campaign(100);
    stats.record(StatusType::Import);
    stats.record(StatusType::Skip);
    stats.record(StatusType::Skip);
    stats.record(StatusType::Error);
    stats.sync_from_global(&depot(5, 3, 1), &branches(17), 103);
    assert_eq!(
        stats.console(),
        "executions: 14 (4/sec)\n  normal: 7, timeout: 2, crash: 1\n  import: 1, skip: 2, error: 1\nbranches: 17\ninputs: 5 (queued: 3, favored: 1)\ntime: 3s"
    );
}

#[test]
fn the_console_summary_comes_only_where_asked_for() {
    let stats = campaign(100);
    let mut log_f = opened(&stats);
    let quiet = report(&mut log_f, &stats, false);
    assert!(quiet.console.is_none());
    let loud = report(&mut log_f, &stats, true);
    assert_eq!(loud.console, Some(stats.console()));
    assert_eq!(loud.snapshot, quiet.snapshot);
    assert_eq!(log_f.take(), "0, 10, 0, 0, 0, 2, 1\n0, 10, 0, 0, 0, 2, 1\n");
}

#[test]
fn the_field_named_record_lists_every_field() {
    let mut stats = campaign(100);
    stats.sync_from_global(&depot(5, 3, 1), &branches(17), 103);
    assert_eq!(
        stats.fields(),
        vec![
            ("init_time", 100),
            ("num_exec", 10),
            ("num_normal", 7),
            ("num_timeout", 2),
            ("num_crash", 1),
            ("num_import", 0),
            ("num_skip", 0),
            ("num_error", 0),
            ("num_branches", 17),
            ("num_inputs", 5),
            ("num_queued", 3),
            ("num_favored", 1),
            ("elapsed", 3),
            ("speed", 3),
        ]
    );
}

#[test]
fn a_campaign_that_has_just_started_shows_zeros() {
    let mut stats = ChartStats::new(500);
    let mut log_f = opened(&stats);
    let (line, r) = tick(&mut log_f, &mut stats, &depot(0, 0, 0), &branches(0), 500, false);
    for (name, value) in &r.snapshot {
        assert_eq!(*value, if *name == "init_time" { 500 } else { 0 });
    }
    assert_eq!(field_of(&r.snapshot, "num_exec"), 0);
    assert_eq!(field_of(&r.snapshot, "num_inputs"), 0);
    assert_eq!(field_of(&r.snapshot, "num_branches"), 0);
    assert_eq!(line, "0, 0, 0, 0, 0, 0, 0");
    assert_eq!(
        as_json(&r.snapshot),
        "{\"elapsed\":0,\"init_time\":500,\"num_branches\":0,\"num_crash\":0,\"num_error\":0,\"num_exec\":0,\"num_favored\":0,\"num_import\":0,\"num_inputs\":0,\"num_normal\":0,\"num_queued\":0,\"num_skip\":0,\"num_timeout\":0,\"speed\":0}"
    );
}

#[test]
fn ten_executions_read_back_from_the_snapshot() {
    let mut stats = campaign(0);
    let mut log_f = opened(&stats);
    let (_, r) = tick(&mut log_f, &mut stats, &depot(1, 1, 0), &branches(4), 2, false);
    assert_eq!(field_of(&r.snapshot, "num_normal"), 7);
    assert_eq!(field_of(&r.snapshot, "num_timeout"), 2);
    assert_eq!(field_of(&r.snapshot, "num_crash"), 1);
    assert_eq!(field_of(&r.snapshot, "num_exec"), 10);
    let read: serde_json::Value = serde_json::from_str(&as_json(&r.snapshot)).unwrap();
    assert_eq!(read["num_normal"].as_u64(), Some(7));
    assert_eq!(read["num_timeout"].as_u64(), Some(2));
    assert_eq!(read["num_crash"].as_u64(), Some(1));
    assert_eq!(read["num_exec"].as_u64(), Some(10));
}

#[test]
fn a_grown_corpus_shows_in_the_next_report() {
    let mut stats = campaign(0);
    let mut log_f = opened(&stats);
    let (first_line, first) = tick(&mut log_f, &mut stats, &depot(5, 2, 1), &branches(9), 20, false);
    let (second_line, second) = tick(&mut log_f, &mut stats, &depot(8, 2, 1), &branches(9), 20, false);
    assert_eq!(field_of(&first.snapshot, "num_inputs"), 5);
    assert_eq!(field_of(&second.snapshot, "num_inputs"), 8);
    for name in ["num_exec", "num_normal", "num_timeout", "num_crash", "num_import", "num_skip", "num_error"] {
        assert_eq!(field_of(&second.snapshot, name), field_of(&first.snapshot, name));
    }
    assert_eq!(first_line, "20, 10, 0, 9, 5, 2, 1");
    assert_eq!(second_line, "20, 10, 0, 9, 8, 2, 1");
}

#[test]
fn each_tick_gives_the_whole_snapshot_anew() {
    let mut stats = campaign(0);
    let mut log_f = opened(&stats);
    let (_, first) = tick(&mut log_f, &mut stats, &depot(5, 2, 1), &branches(9), 20, false);
    stats.record(StatusType::Crash);
    let (_, second) = tick(&mut log_f, &mut stats, &depot(6, 2, 1), &branches(10), 30, false);
    assert_eq!(first.snapshot.len(), 14);
    assert_eq!(second.snapshot.len(), 14);
    let text = as_json(&second.snapshot);
    let read: serde_json::Value = serde_json::from_str(&text).unwrap();
    let object = read.as_object().unwrap();
    assert_eq!(object.len(), 14);
    assert_eq!(text.matches('{').count(), 1);
    assert_eq!(text.matches('}').count(), 1);
    assert_eq!(read["num_crash"].as_u64(), Some(2));
    assert_eq!(read["num_inputs"].as_u64(), Some(6));
    assert_eq!(read["elapsed"].as_u64(), Some(30));
    assert_ne!(as_json(&first.snapshot), text);
}

#[test]
fn a_tick_synchronizes_and_reports_the_same_state() {
    let mut stats = campaign(100);
    let mut log_f = opened(&stats);
    let (line, r) = tick(&mut log_f, &mut stats, &depot(5, 3, 1), &branches(17), 103, true);
    assert_eq!(line, stats.mini_log());
    assert_eq!(r.snapshot, stats.fields());
    assert_eq!(r.console, Some(stats.console()));
    assert_eq!(stats.value(Field::NumInputs), 5);
    assert_eq!(stats.value(Field::Elapsed), 3);
}

#[test]
fn two_ticks_with_unchanged_readings_report_the_same() {
    let mut stats = campaign(100);
    let mut log_f = opened(&stats);
    let (first_line, first) = tick(&mut log_f, &mut stats, &depot(5, 3, 1), &branches(17), 103, true);
    let once = stats;
    let (second_line, second) = tick(&mut log_f, &mut stats, &depot(5, 3, 1), &branches(17), 103, true);
    assert_eq!(stats, once);
    assert_eq!(second_line, first_line);
    assert_eq!(second.snapshot, first.snapshot);
    assert_eq!(second.console, first.console);
}

#[test]
fn the_record_and_the_snapshot_show_the_same_numbers() {
    let mut stats = campaign(100);
    stats.record(StatusType::Import);
    let mut log_f = opened(&stats);
    let (line, r) = tick(&mut log_f, &mut stats, &depot(5, 3, 1), &branches(17), 160, false);
    let names: Vec<&str> = HEADER.split(", ").collect();
    let read = LogRecord::parse(&line).unwrap();
    let values = [
        read.elapsed,
        read.num_exec,
        read.speed,
        read.num_branches,
        read.num_inputs,
        read.num_timeout,
        read.num_crash,
    ];
    assert_eq!(names.len(), values.len());
    let json: serde_json::Value = serde_json::from_str(&as_json(&r.snapshot)).unwrap();
    for (name, value) in names.iter().zip(values.iter()) {
        assert_eq!(field_of(&r.snapshot, name), *value);
        assert_eq!(json[*name].as_u64(), Some(*value));
    }
    assert_eq!(values, [60, 11, 0, 17, 5, 2, 1]);
}

#[test]
fn a_record_is_read_back() {
    let read = LogRecord::parse("3, 10, 3, 17, 5, 2, 1");
    assert_eq!(
        read,
        Some(LogRecord {
            elapsed: 3,
            num_exec: 10,
            speed: 3,
            num_branches: 17,
            num_inputs: 5,
            num_timeout: 2,
            num_crash: 1,
        })
    );
    assert_eq!(read.unwrap().line(), "3, 10, 3, 17, 5, 2, 1");
}

#[test]
fn what_is_no_record_is_not_read() {
    assert_eq!(LogRecord::parse(HEADER), None);
    assert_eq!(LogRecord::parse(""), None);
    assert_eq!(LogRecord::parse("3, 10, 3, 17, 5, 2"), None);
    assert_eq!(LogRecord::parse("3, 10, 3, 17, 5, 2, 1, 0"), None);
    assert_eq!(LogRecord::parse("3, 10, 3, 17, 5, 2, 1\n"), None);
    assert_eq!(LogRecord::parse("3,10,3,17,5,2,1"), None);
    assert_eq!(LogRecord::parse("3, 10, 3, 17, 5, 2, 01"), None);
    assert_eq!(LogRecord::parse("3, 10, 3, 17, 5, 2, 18446744073709551616"), None);
}

#[test]
fn the_snapshot_file_has_its_name() {
    assert_eq!(CHART_STAT_FILE, "chart_stat.json");
}
