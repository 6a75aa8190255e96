use cpu_top::aggregate::aggregate;
use cpu_top::aggregate::GroupSummary;
use cpu_top::rank::find_entry;
use cpu_top::rank::rank;
use cpu_top::rank::total_of;
use cpu_top::rank::TotalRow;
use cpu_top::sample::ProcessSample;
use cpu_top::usage::CpuReading;
use cpu_top::usage::CpuUsage;

fn group(name: &str, millionths: u128, processes: u64) -> GroupSummary {
    GroupSummary { name: name.to_string(), cpu: CpuUsage::Millionths(millionths), processes }
}

fn undefined(name: &str, processes: u64) -> GroupSummary {
    GroupSummary { name: name.to_string(), cpu: CpuUsage::NotANumber, processes }
}

fn names(rows: &[GroupSummary]) -> Vec<&str> {
    rows.iter().map(|g| g.name.as_str()).collect()
}

#[test]
fn rows_are_in_descending_order_of_usage() {
    let groups = vec![
        group("c", 3_000_000, 1),
        group("a", 9_000_000, 2),
        group("e", 0, 1),
        group("b", 7_500_000, 4),
        group("d", 1_250_000, 1),
    ];
    let table = rank(groups);
    assert_eq!(names(&table.rows), vec!["a", "b", "c", "d", "e"]);
    for pair in table.rows.windows(2) {
        assert!(!pair[1].cpu.outranks(&pair[0].cpu));
    }
}

#[test]
fn ranking_keeps_every_group() {
    let groups = vec![group("x", 5, 1), group("y", 50, 2), group("z", 500, 3), group("x", 5, 1)];
    let table = rank(groups.clone());
    assert_eq!(table.rows.len(), groups.len());
    for g in &groups {
        let given = groups.iter().filter(|h| *h == g).count();
        let ranked = table.rows.iter().filter(|h| *h == g).count();
        assert_eq!(given, ranked);
    }
}

#[test]
fn groups_of_equal_usage_keep_their_order() {
    let groups = vec![
        group("first", 1_000_000, 1),
        group("top", 2_000_000, 1),
        group("second", 1_000_000, 1),
        group("third", 1_000_000, 1),
        group("last", 0, 1),
    ];
    let table = rank(groups);
    assert_eq!(names(&table.rows), vec!["top", "first", "second", "third", "last"]);
}

#[test]
fn ranking_is_the_same_every_time() {
    let groups = vec![
        group("a", 10, 1),
        group("b", 10, 1),
        undefined("n", 1),
        group("c", 30, 1),
        group("d", 10, 1),
    ];
    let once = rank(groups.clone());
    let again = rank(groups);
    assert_eq!(once, again);
}

#[test]
fn total_sums_over_all_groups() {
    let groups =
        vec![group("a", 12_500_000, 2), group("b", 7_500_000, 1), group("c", 250_000, 40)];
    let table = rank(groups.clone());
    assert_eq!(table.total, TotalRow { cpu: CpuUsage::Millionths(20_250_000), processes: 43 });
    assert_eq!(total_of(&groups), table.total);
}

#[test]
fn total_of_no_groups_is_zero() {
    let table = rank(Vec::new());
    assert!(table.rows.is_empty());
    assert_eq!(table.total, TotalRow { cpu: CpuUsage::Millionths(0), processes: 0 });
}

#[test]
fn total_counts_beyond_sixty_four_bits() {
    let groups = vec![group("a", 1, u64::MAX), group("b", 1, u64::MAX), group("c", 1, 2)];
    assert_eq!(total_of(&groups).processes, 2 * (u64::MAX as u128) + 2);
}

#[test]
fn not_a_number_never_fails_the_ranking() {
    let groups = vec![
        group("a", 1_000_000, 1),
        undefined("n", 2),
        group("b", 5_000_000, 1),
        undefined("m", 1),
        group("c", 3_000_000, 1),
    ];
    let table = rank(groups);
    assert_eq!(table.rows.len(), 5);
    for pair in table.rows.windows(2) {
        assert!(!pair[1].cpu.outranks(&pair[0].cpu));
    }
    assert_eq!(names(&table.rows), vec!["b", "c", "a", "n", "m"]);
    assert_eq!(table.total, TotalRow { cpu: CpuUsage::NotANumber, processes: 6 });
}

#[test]
fn not_a_number_alone_and_everywhere() {
    let table = rank(vec![undefined("n", 1)]);
    assert_eq!(names(&table.rows), vec!["n"]);
    let table = rank(vec![undefined("n", 1), undefined("m", 1), undefined("o", 1)]);
    assert_eq!(names(&table.rows), vec!["n", "m", "o"]);
    assert_eq!(table.total.cpu, CpuUsage::NotANumber);
}

#[test]
fn not_a_number_total_despite_huge_amounts() {
    let groups = vec![group("a", u128::MAX, 1), undefined("n", 1), group("b", u128::MAX, 1)];
    let table = rank(groups);
    assert_eq!(table.total, TotalRow { cpu: CpuUsage::NotANumber, processes: 3 });
    assert_eq!(table.rows.len(), 3);
}

#[test]
fn ranking_many_groups_completes() {
    let mut groups = Vec::new();
    for i in 0..2000u64 {
        let usage = (i * 7919) % 1009;
        if i % 97 == 0 {
            groups.push(undefined(&format!("n{}", i), 1));
        } else {
            groups.push(group(&format!("g{}", i), usage as u128, 1));
        }
    }
    let table = rank(groups);
    assert_eq!(table.rows.len(), 2000);
    for pair in table.rows.windows(2) {
        assert!(!pair[1].cpu.outranks(&pair[0].cpu));
    }
}

#[test]
fn entry_is_in_front_of_first_row_outranked() {
    let rows = vec![group("a", 30, 1), group("b", 20, 1), group("c", 20, 1), group("d", 10, 1)];
    assert_eq!(find_entry(&rows, &group("x", 40, 1)), 0);
    assert_eq!(find_entry(&rows, &group("x", 30, 1)), 1);
    assert_eq!(find_entry(&rows, &group("x", 25, 1)), 1);
    assert_eq!(find_entry(&rows, &group("x", 20, 1)), 3);
    assert_eq!(find_entry(&rows, &group("x", 10, 1)), 4);
    assert_eq!(find_entry(&rows, &group("x", 0, 1)), 4);
    assert_eq!(find_entry(&rows, &undefined("x", 1)), 4);
    assert_eq!(find_entry(&Vec::new(), &group("x", 0, 1)), 0);
}

#[test]
fn ranked_snapshot_of_workers_and_others() {
    let snapshot: Vec<ProcessSample> = [("idle", 0.5f32), ("worker", 12.5), ("cc", 15.0), ("worker", 7.5)]
        .iter()
        .enumerate()
        .map(|(i, (name, percent))| ProcessSample {
            pid: i as u32,
            name: name.to_string(),
            command_line: vec![name.to_string()],
            cpu: CpuReading::from_bits(percent.to_bits()),
        })
        .collect();
    let table = rank(aggregate(&snapshot));
    assert_eq!(
        table.rows,
        vec![group("worker", 20_000_000, 2), group("cc", 15_000_000, 1), group("idle", 500_000, 1)]
    );
    assert_eq!(table.total, TotalRow { cpu: CpuUsage::Millionths(35_500_000), processes: 4 });
}
