use banshee::timeline::{kept_spans, Span};

/// Kept parts of a clip trimmed to `[trim_start, trim_end)` with `removed` ranges taken out,
/// in seconds from the trim start: the times are ranked, the spans computed on the ranks, and
/// the ranks turned back into times.
fn kept_segments(trim_start: f64, trim_end: f64, removed: &[(f64, f64)]) -> Vec<(f64, f64)> {
    let duration = (trim_end - trim_start).max(0.0);
    let clamped: Vec<(f64, f64)> = removed
        .iter()
        .map(|(s, e)| ((s - trim_start).clamp(0.0, duration), (e - trim_start).clamp(0.0, duration)))
        .collect();
    let mut points = vec![0.0, duration];
    for (s, e) in &clamped {
        points.push(*s);
        points.push(*e);
    }
    points.sort_by(|a, b| a.partial_cmp(b).unwrap());
    points.dedup();
    let rank = |v: f64| points.iter().position(|p| *p == v).unwrap() as u64;
    let spans: Vec<Span> = clamped.iter().map(|(s, e)| Span { start: rank(*s), end: rank(*e) }).collect();
    kept_spans(&spans, rank(duration))
        .iter()
        .map(|s| (points[s.start as usize], points[s.end as usize]))
        .collect()
}

#[test]
fn removed_ranges_become_kept_segments() {
    assert_eq!(kept_segments(10.0, 20.0, &[(13.0, 15.0)]), vec![(0.0, 3.0), (5.0, 10.0)]);
}

#[test]
fn overlapping_and_touching_ranges_merge() {
    assert_eq!(
        kept_segments(0.0, 10.0, &[(6.0, 8.0), (1.0, 3.0), (2.0, 4.0), (4.0, 5.0)]),
        vec![(0.0, 1.0), (5.0, 6.0), (8.0, 10.0)]
    );
}

#[test]
fn ranges_outside_the_trim_are_cut() {
    assert_eq!(kept_segments(10.0, 20.0, &[(0.0, 12.0), (18.0, 30.0)]), vec![(2.0, 8.0)]);
    assert_eq!(kept_segments(10.0, 20.0, &[(25.0, 30.0), (15.0, 15.0)]), vec![(0.0, 10.0)]);
    assert_eq!(kept_segments(10.0, 20.0, &[(0.0, 30.0)]), vec![]);
}

#[test]
fn spans_on_ranks() {
    let removed = vec![Span { start: 7, end: 3 }, Span { start: 2, end: 4 }, Span { start: 9, end: 40 }];
    assert_eq!(
        kept_spans(&removed, 12),
        vec![Span { start: 0, end: 2 }, Span { start: 4, end: 9 }]
    );
    assert_eq!(kept_spans(&vec![], 5), vec![Span { start: 0, end: 5 }]);
    assert_eq!(kept_spans(&vec![], 0), vec![]);
}
