use audio_checker::detector::{
    check_event_count, check_recording_length, event_span, find_active_regions, merge_regions,
    DetectFault, EventSpan,
};

fn frames(pattern: &[(bool, usize)]) -> Vec<bool> {
    pattern.iter().flat_map(|&(active, n)| std::iter::repeat(active).take(n)).collect()
}

#[test]
fn regions_close_after_25_quiet_frames() {
    let active = frames(&[(false, 3), (true, 4), (false, 30), (true, 1), (false, 25)]);
    assert_eq!(find_active_regions(&active), vec![(3, 6), (37, 38)]);
}

#[test]
fn short_gaps_stay_in_one_region() {
    let active = frames(&[(true, 2), (false, 24), (true, 2), (false, 40)]);
    assert_eq!(find_active_regions(&active), vec![(0, 27)]);
}

#[test]
fn region_open_at_the_end_reaches_last_frame() {
    let active = frames(&[(false, 5), (true, 2), (false, 10)]);
    assert_eq!(find_active_regions(&active), vec![(5, 16)]);
    let active = frames(&[(false, 5), (true, 1)]);
    assert_eq!(find_active_regions(&active), vec![(5, 6)]);
    assert_eq!(find_active_regions(&frames(&[(false, 50)])), vec![]);
    assert_eq!(find_active_regions(&[]), vec![]);
}

#[test]
fn found_regions_are_ordered_and_apart() {
    let mut active = Vec::new();
    for k in 0..400usize {
        active.push((k * 7919) % 13 < 3 || (k / 50) % 3 == 0);
    }
    let regions = find_active_regions(&active);
    for (k, region) in regions.iter().enumerate() {
        assert!(region.0 < region.1 && region.1 <= active.len());
        assert!(active[region.0]);
        if k + 1 < regions.len() {
            assert!(region.1 < regions[k + 1].0);
        }
    }
}

#[test]
fn close_regions_are_merged() {
    let regions = vec![(0, 10), (100, 120), (2500, 2600), (2700, 2800), (5000, 5001)];
    assert_eq!(merge_regions(&regions, 2000), vec![(0, 120), (2500, 2800), (5000, 5001)]);
    assert_eq!(merge_regions(&regions, 1), regions);
    assert_eq!(merge_regions(&[], 2000), vec![]);
    assert_eq!(merge_regions(&regions, usize::MAX), vec![(0, 5001)]);
}

#[test]
fn merged_starts_are_at_least_the_gap_apart() {
    let regions: Vec<(usize, usize)> = (0..60).map(|k| (k * 37, k * 37 + 5)).collect();
    let merged = merge_regions(&regions, 100);
    for pair in merged.windows(2) {
        assert!(pair[0].0 + 100 <= pair[1].0);
    }
}

#[test]
fn event_placed_in_samples() {
    assert_eq!(
        event_span(1000, 1200, 96_000),
        EventSpan { last_frame: 1200, start_sample: 16_000, end_sample: 19_216, search_start: 15_920 }
    );
    assert_eq!(
        event_span(1000, 2000, 96_000),
        EventSpan { last_frame: 1500, start_sample: 16_000, end_sample: 24_016, search_start: 15_920 }
    );
    assert_eq!(
        event_span(2, 5990, 96_000).search_start,
        0
    );
    assert_eq!(event_span(5990, 5999, 96_000).end_sample, 96_000);
}

#[test]
fn event_count_checks() {
    assert_eq!(check_recording_length(639), Err(DetectFault::TooShort));
    assert_eq!(check_recording_length(640), Ok(()));
    assert_eq!(check_event_count(0, None), Err(DetectFault::NoEvents));
    assert_eq!(check_event_count(0, Some(0)), Err(DetectFault::NoEvents));
    assert_eq!(check_event_count(3, None), Ok(()));
    assert_eq!(check_event_count(3, Some(3)), Ok(()));
    assert_eq!(check_event_count(2, Some(3)), Err(DetectFault::CountMismatch { expected: 3, found: 2 }));
}

#[test]
fn detection_failure_codes() {
    assert_eq!(DetectFault::CountMismatch { expected: 3, found: 2 }.report_code(), "EVENT_COUNT_MISMATCH");
    assert_eq!(DetectFault::NoEvents.report_code(), "EVENT_DETECTION_UNCERTAIN");
    assert_eq!(DetectFault::TooShort.report_code(), "EVENT_DETECTION_UNCERTAIN");
    assert_eq!(DetectFault::InvalidGap.report_code(), "EVENT_DETECTION_UNCERTAIN");
}
