use lean_ctx::gain::{date_short, gain_daily, gain_graph, DayGain, GainDaily};

fn day(date: &str, commands: u64, input: u64, output: u64, version: &str, saved: u64) -> DayGain {
    DayGain {
        date: date.to_string(),
        commands,
        input_tokens: input,
        output_tokens: output,
        version: version.to_string(),
        saved_tokens: saved,
    }
}

fn store(n: u64) -> Vec<DayGain> {
    (0..n)
        .map(|k| day(&format!("2026-{:02}-{:02}", 1 + k / 28, 1 + k % 28), k, 100 + k, 40, "3.1", k * 10))
        .collect()
}

#[test]
fn graph_of_empty_store_has_no_data() {
    assert!(gain_graph(&vec![]).is_none());
}

#[test]
fn graph_shows_the_last_thirty_days() {
    let days = store(40);
    let g = gain_graph(&days).unwrap();
    assert_eq!(g.rows.len(), 30);
    assert_eq!(g.rows[0].date, days[10].date);
    assert_eq!(g.rows[29].date, days[39].date);
    assert_eq!(g.peak, 390);
    assert_eq!(g.total_saved, (10..40u64).map(|k| k * 10).sum::<u64>());
    assert_eq!(g.total_commands, (10..40u64).sum::<u64>());
    assert_eq!(g.rows[0].date_short, "01-11");
    assert_eq!(g.rows[0].input_saved, 70);
}

#[test]
fn graph_peak_is_at_least_one() {
    let g = gain_graph(&vec![day("2026-01-01", 1, 0, 5, "", 0)]).unwrap();
    assert_eq!(g.peak, 1);
    assert_eq!(g.rows[0].input_saved, 0);
    assert_eq!(g.rows[0].version_label, "—");
}

#[test]
fn short_dates() {
    assert_eq!(date_short("2026-06-01"), "06-01");
    assert_eq!(date_short("2026-"), "");
    assert_eq!(date_short("2026"), "2026");
    assert_eq!(date_short("202é-1"), "-1");
    assert_eq!(date_short("20é-1"), "1");
    assert_eq!(date_short("20éé"), "20éé");
}

#[test]
fn daily_table_totals_cover_the_whole_store() {
    let days = store(35);
    match gain_daily(&days, 999, None) {
        GainDaily::Table { rows, totals } => {
            assert_eq!(rows.len(), 30);
            assert_eq!(rows[29].version_label, "v3.1");
            let t = totals.unwrap();
            assert_eq!(t.total_commands, 999);
            assert_eq!(t.total_input, (0..35u64).map(|k| 100 + k).sum::<u64>());
            assert_eq!(t.total_saved, (0..35u64).map(|k| k * 10).sum::<u64>());
            assert_eq!(t.total_input_saved, (0..35u64).map(|k| 60 + k).sum::<u64>());
            assert_eq!(t.trend, (5..35u64).map(|k| k * 10).collect::<Vec<_>>());
        }
        _ => panic!("expected a table"),
    }
}

#[test]
fn daily_views_without_data() {
    assert!(matches!(gain_daily(&vec![], 0, None), GainDaily::NoDailyData));
    assert!(matches!(
        gain_daily(&store(3), 0, Some("1999-01-01")),
        GainDaily::NoDataForDate
    ));
}

#[test]
fn single_day_view_has_one_row_and_no_totals() {
    let days = store(3);
    match gain_daily(&days, 0, Some("2026-01-02")) {
        GainDaily::Table { rows, totals } => {
            assert_eq!(rows.len(), 1);
            assert_eq!(rows[0].date, "2026-01-02");
            assert_eq!(rows[0].saved_tokens, 10);
            assert!(totals.is_none());
        }
        _ => panic!("expected the day"),
    }
}
