use hexsnake::stats::Stats;

#[test]
fn stats_read_one_per_line() {
    let stats = Stats {
        polygons: 1234,
        max_subsegments_per_segment: 7,
        redrawing_apples: true,
        redrawing_snakes: false,
    };
    assert_eq!(
        stats.text(),
        "total polygons: 1234\nmax subsegments: 7\nredrawing apples: true\nredrawing snakes: false"
    );
    assert_eq!(Stats::default().text().lines().next(), Some("total polygons: 0"));
}
