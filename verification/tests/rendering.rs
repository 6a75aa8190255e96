use cpu_top::aggregate::aggregate;
use cpu_top::aggregate::GroupSummary;
use cpu_top::rank::rank;
use cpu_top::rank::RankedTable;
use cpu_top::rank::TotalRow;
use cpu_top::render::format_header;
use cpu_top::render::format_line;
use cpu_top::render::format_row;
use cpu_top::render::format_total;
use cpu_top::render::frame_text;
use cpu_top::render::render;
use cpu_top::render::FrameState;
use cpu_top::sample::ProcessSample;
use cpu_top::terminal::viewport;
use cpu_top::terminal::visible_rows;
use cpu_top::text::decimal_text;
use cpu_top::text::push_decimal;
use cpu_top::text::push_left_justified;
use cpu_top::text::push_right_justified;
use cpu_top::text::push_spaces;
use cpu_top::text::usage_to_text;
use cpu_top::usage::CpuReading;
use cpu_top::usage::CpuUsage;

fn group(name: &str, millionths: u128, processes: u64) -> GroupSummary {
    GroupSummary { name: name.to_string(), cpu: CpuUsage::Millionths(millionths), processes }
}

fn ten_groups() -> Vec<GroupSummary> {
    (0..10u64).map(|i| group(&format!("proc{}", i), (100 - i as u128) * 1_000_000, i + 1)).collect()
}

#[test]
fn five_visible_rows_show_four_groups_and_total() {
    let table = rank(ten_groups());
    let mut state = FrameState::new();
    let lines = render(&table, 5, &mut state);
    assert_eq!(lines.len(), 6);
    assert_eq!(lines[0], format!("{:<40} {:>8} {:>7}", "Process", "CPU", "# proc"));
    let rows = &lines[1..lines.len() - 1];
    assert_eq!(rows.len(), 4);
    for (i, row) in rows.iter().enumerate() {
        assert_eq!(
            *row,
            format!("{:<40} {:>8.2} {:>7}", format!("proc{}", i), 100.0 - i as f64, i + 1)
        );
    }
    assert_eq!(lines[5], format!("{:<40} {:>8.2} {:>7}", "Total", 955.0, 55));
    assert_eq!(state.lines, 6);
}

#[test]
fn total_is_last_and_complete_at_every_height() {
    let table = rank(ten_groups());
    let total = format!("{:<40} {:>8.2} {:>7}", "Total", 955.0, 55);
    for height in 0..30usize {
        let mut state = FrameState::new();
        let lines = render(&table, height, &mut state);
        let shown = if height == 0 { 0 } else { (height - 1).min(10) };
        assert_eq!(lines.len(), shown + 2);
        assert_eq!(lines[lines.len() - 1], total);
        assert_eq!(state.lines, lines.len());
    }
}

#[test]
fn nothing_counted_shows_total_of_zero_alone() {
    let snapshot = vec![
        ProcessSample {
            pid: 2,
            name: "kthreadd".to_string(),
            command_line: Vec::new(),
            cpu: CpuReading::from_bits(3.5f32.to_bits()),
        },
        ProcessSample {
            pid: 3,
            name: "rcu_gp".to_string(),
            command_line: Vec::new(),
            cpu: CpuReading::from_bits(1.0f32.to_bits()),
        },
    ];
    let table = rank(aggregate(&snapshot));
    assert_eq!(
        table,
        RankedTable {
            rows: Vec::new(),
            total: TotalRow { cpu: CpuUsage::Millionths(0), processes: 0 },
        }
    );
    let mut state = FrameState::new();
    let lines = render(&table, 24, &mut state);
    assert_eq!(
        lines,
        vec![
            "Process                                       CPU  # proc".to_string(),
            "Total                                        0.00       0".to_string(),
        ]
    );
}

#[test]
fn rows_come_in_the_order_of_the_table() {
    let table = rank(vec![group("low", 1_000_000, 1), group("high", 2_000_000, 1)]);
    let mut state = FrameState { lines: 17 };
    let lines = render(&table, 24, &mut state);
    assert_eq!(
        lines,
        vec![
            "Process                                       CPU  # proc".to_string(),
            "high                                         2.00       1".to_string(),
            "low                                          1.00       1".to_string(),
            "Total                                        3.00       2".to_string(),
        ]
    );
    assert_eq!(state.lines, 4);
}

#[test]
fn one_visible_row_is_kept_for_the_total() {
    let table = rank(ten_groups());
    let mut state = FrameState::new();
    assert_eq!(render(&table, 1, &mut state).len(), 2);
    assert_eq!(render(&table, 2, &mut state).len(), 3);
    assert_eq!(render(&table, 11, &mut state).len(), 12);
    assert_eq!(render(&table, 12, &mut state).len(), 12);
    assert_eq!(render(&table, usize::MAX, &mut state).len(), 12);
}

#[test]
fn lines_agree_with_the_standard_formatter() {
    assert_eq!(format_header(), format!("{:<40} {:>8} {:>7}", "Process", "CPU", "# proc"));
    assert_eq!(
        format_row(&group("worker", 20_000_000, 2)),
        format!("{:<40} {:>8.2} {:>7}", "worker", 20.0, 2)
    );
    assert_eq!(
        format_row(&group("", 0, 0)),
        format!("{:<40} {:>8.2} {:>7}", "", 0.0, 0)
    );
    assert_eq!(
        format_row(&group("make", 123_456_780_000, 12_345_678)),
        format!("{:<40} {:>8.2} {:>7}", "make", 123456.78, 12_345_678)
    );
    assert_eq!(
        format_total(&TotalRow { cpu: CpuUsage::Millionths(99_990_000), processes: 1234 }),
        format!("{:<40} {:>8.2} {:>7}", "Total", 99.99, 1234)
    );
    assert_eq!(
        format_row(&GroupSummary {
            name: "odd".to_string(),
            cpu: CpuUsage::NotANumber,
            processes: 3
        }),
        format!("{:<40} {:>8.2} {:>7}", "odd", f64::NAN, 3)
    );
}

#[test]
fn long_names_and_numbers_overflow_their_fields() {
    let name = "a-process-name-that-is-longer-than-forty-characters";
    assert_eq!(
        format_row(&group(name, 1_000_000, 1)),
        format!("{:<40} {:>8.2} {:>7}", name, 1.0, 1)
    );
    let exactly_forty = "0123456789012345678901234567890123456789";
    assert_eq!(
        format_row(&group(exactly_forty, 1_000_000, 1)),
        format!("{}     1.00       1", exactly_forty)
    );
    assert_eq!(
        format_row(&group("big", 123_456_789_010_000, 123_456_789)),
        "big                                      123456789.01 123456789"
    );
}

#[test]
fn names_are_padded_by_characters_not_bytes() {
    let name = "sérveur-日本語";
    assert_eq!(
        format_row(&group(name, 2_500_000, 7)),
        format!("{:<40} {:>8.2} {:>7}", name, 2.5, 7)
    );
    assert_eq!(format_line("é", "ü", "ö").chars().count(), 57);
}

#[test]
fn usage_is_rounded_to_hundredths() {
    assert_eq!(usage_to_text(CpuUsage::Millionths(0)), "0.00");
    assert_eq!(usage_to_text(CpuUsage::Millionths(4_999)), "0.00");
    assert_eq!(usage_to_text(CpuUsage::Millionths(5_000)), "0.01");
    assert_eq!(usage_to_text(CpuUsage::Millionths(12_344_999)), "12.34");
    assert_eq!(usage_to_text(CpuUsage::Millionths(12_345_000)), "12.35");
    assert_eq!(usage_to_text(CpuUsage::Millionths(999_995_000)), "1000.00");
    assert_eq!(usage_to_text(CpuUsage::Millionths(99_994_999)), "99.99");
    assert_eq!(usage_to_text(CpuUsage::Millionths(1_050_000)), "1.05");
    assert_eq!(usage_to_text(CpuUsage::Millionths(20_000_000)), "20.00");
    assert_eq!(usage_to_text(CpuUsage::NotANumber), "NaN");
    assert_eq!(
        usage_to_text(CpuUsage::Millionths(u128::MAX)),
        "340282366920938463463374607431768.21"
    );
}

#[test]
fn numbers_in_decimal_digits() {
    assert_eq!(decimal_text(0), "0");
    assert_eq!(decimal_text(9), "9");
    assert_eq!(decimal_text(10), "10");
    assert_eq!(decimal_text(1234567890), "1234567890");
    assert_eq!(decimal_text(u128::MAX), u128::MAX.to_string());
    let mut text = "n=".to_string();
    push_decimal(&mut text, 407);
    assert_eq!(text, "n=407");
    for d in 0..10u128 {
        assert_eq!(decimal_text(d), ((b'0' + d as u8) as char).to_string());
    }
}

#[test]
fn fields_are_filled_with_spaces() {
    let mut text = "[".to_string();
    push_spaces(&mut text, 3);
    push_spaces(&mut text, 0);
    text.push(']');
    assert_eq!(text, "[   ]");
    let mut line = "<".to_string();
    push_left_justified(&mut line, "ab", 5);
    line.push('|');
    push_right_justified(&mut line, "cd", 5);
    line.push('|');
    push_left_justified(&mut line, "toolong", 3);
    line.push('|');
    push_right_justified(&mut line, "toolong", 3);
    line.push('>');
    assert_eq!(line, "<ab   |   cd|toolong|toolong>");
}

#[test]
fn frame_is_written_line_by_line() {
    let lines = vec!["one".to_string(), "two".to_string(), "three".to_string()];
    assert_eq!(frame_text(&lines), "one\ntwo\nthree\n");
    assert_eq!(frame_text(&vec!["only".to_string()]), "only\n");
    assert_eq!(frame_text(&Vec::new()), "");
    assert_eq!(frame_text(&lines).matches('\n').count(), lines.len());
}

#[test]
fn rewind_covers_the_lines_of_the_last_frame() {
    assert_eq!(FrameState::new().rewind(), Vec::<u16>::new());
    assert_eq!(FrameState { lines: 1 }.rewind(), vec![1]);
    assert_eq!(FrameState { lines: 6 }.rewind(), vec![6]);
    assert_eq!(FrameState { lines: 65_535 }.rewind(), vec![65_535]);
    assert_eq!(FrameState { lines: 65_536 }.rewind(), vec![65_535, 1]);
    assert_eq!(FrameState { lines: 200_000 }.rewind(), vec![65_535, 65_535, 65_535, 3_395]);
    let table = rank(ten_groups());
    let mut state = FrameState::new();
    let lines = render(&table, 8, &mut state);
    let moved: usize = state.rewind().iter().map(|m| *m as usize).sum();
    assert_eq!(moved, lines.len());
}

#[test]
fn height_of_terminal_or_default() {
    assert_eq!(visible_rows(None), 24);
    assert_eq!(visible_rows(Some((80, 50))), 50);
    assert_eq!(visible_rows(Some((0, 0))), 0);
    assert_eq!(visible_rows(Some((132, 1))), 1);
}

#[test]
fn viewport_is_that_of_the_terminal() {
    let view = viewport();
    assert_eq!(view.dimensions, term_size::dimensions());
    match view.dimensions {
        Some((_, height)) => assert_eq!(view.visible_rows, height),
        None => assert_eq!(view.visible_rows, 24),
    }
}
