use benchserv::chart::ConnectionChart;

#[test]
fn points_accumulate_with_running_index() {
    let mut chart = ConnectionChart::default();
    assert_eq!(chart.index, 1);
    assert!(chart.data_points.is_empty());
    chart.update(10);
    chart.update(20);
    chart.update(30);
    assert_eq!(chart.index, 4);
    let points: Vec<(u64, u64)> = chart.data_points.iter().copied().collect();
    assert_eq!(points, vec![(1, 10), (2, 20), (3, 30)]);
}

#[test]
fn window_slides_after_sixty_points() {
    let mut chart = ConnectionChart::default();
    for latency in 0..61u64 {
        chart.update(latency);
    }
    // The sixty-first point pushed the oldest one out.
    assert_eq!(chart.data_points.len(), 60);
    assert_eq!(*chart.data_points.front().unwrap(), (2, 1));
    assert_eq!(*chart.data_points.back().unwrap(), (61, 60));
}

#[test]
fn bounded_chart_keeps_every_point() {
    let mut chart = ConnectionChart::default();
    chart.max_connections = Some(5);
    for latency in 0..61u64 {
        chart.update(latency);
    }
    assert_eq!(chart.data_points.len(), 61);
}

#[test]
fn clear_restarts_the_chart() {
    let mut chart = ConnectionChart::default();
    chart.update(10);
    chart.update(20);
    chart.clear();
    assert_eq!(chart.index, 1);
    assert!(chart.data_points.is_empty());
}

#[test]
fn x_range_spans_ceiling_or_window() {
    let mut chart = ConnectionChart::default();
    let r = chart.x_range();
    assert_eq!((r.start, r.end), (1, 60));
    chart.update(10);
    chart.update(20);
    let r = chart.x_range();
    assert_eq!((r.start, r.end), (1, 60));
    for latency in 0..70u64 {
        chart.update(latency);
    }
    let r = chart.x_range();
    assert_eq!(r.end, 72);
    chart.max_connections = Some(10);
    let r = chart.x_range();
    assert_eq!((r.start, r.end), (1, 10));
}

#[test]
fn y_range_adds_three_tenths_headroom() {
    let mut chart = ConnectionChart::default();
    let r = chart.y_range();
    assert_eq!((r.start, r.end), (0, 65));
    chart.update(100);
    let r = chart.y_range();
    assert_eq!((r.start, r.end), (0, 130));
    chart.update(7);
    // The maximum still rules; 100 * 13 / 10 == 130.
    let r = chart.y_range();
    assert_eq!(r.end, 130);
    chart.clear();
    chart.update(7);
    let r = chart.y_range();
    assert_eq!(r.end, 9);
}
