//! The frame-level decisions of plucked-string event detection: grouping
//! active frames into regions, merging regions closer than the minimum gap,
//! placing an event in samples, and checking how many events were found.

use vstd::prelude::*;

verus! {

/// A detected event: the sample of its onset and the sample where it ends.
#[derive(Debug, Clone, Copy, PartialEq, Eq, Structural)]
pub struct Event {
    pub onset_sample: usize,
    pub end_sample: usize,
}

/// Samples between the starts of two analysis frames.
pub const HOP: usize = 16;

/// Samples in one analysis window.
pub const WINDOW: usize = 160;

/// Longest event, in frames.
pub const MAX_EVENT_FRAMES: usize = 500;

/// Inactive frames that close a region.
pub const QUIET_FRAMES_TO_CLOSE: usize = 25;

/// Fewest samples in which events are looked for.
pub const MIN_DETECT_SAMPLES: usize = 640;

/// The state of the scan over frames: closed regions, the start of the open
/// region, and the inactive frames seen since its last active frame.
pub type ScanState = (Seq<(int, int)>, Option<int>, int);

pub open spec fn max_int(a: int, b: int) -> int {
    if a >= b {
        a
    } else {
        b
    }
}

/// One frame of the scan: an active frame opens a region (or keeps it open);
/// the 25th inactive frame in a row closes the open region at its last active
/// frame (and at least one frame after its start).
pub open spec fn scan_step(state: ScanState, i: int, active: bool) -> ScanState {
    let (regions, start, quiet) = state;
    if active {
        (regions, if start is Some { start } else { Some(i) }, 0)
    } else if start is Some {
        if quiet + 1 >= QUIET_FRAMES_TO_CLOSE {
            (
                regions.push((start->0, max_int(i - (quiet + 1), start->0 + 1))),
                None,
                0,
            )
        } else {
            (regions, start, quiet + 1)
        }
    } else {
        (regions, None, quiet)
    }
}

/// The scan over the first `n` frames.
pub open spec fn scan(active: Seq<bool>, n: nat) -> ScanState
    decreases n,
{
    if n == 0 {
        (Seq::empty(), None, 0)
    } else {
        scan_step(scan(active, (n - 1) as nat), n - 1, active[n - 1])
    }
}

/// The regions of activity: those the scan closed, then the one still open at
/// the end, which reaches the last frame (and at least one frame after its start).
pub open spec fn active_regions(active: Seq<bool>) -> Seq<(int, int)> {
    let (regions, start, _) = scan(active, active.len());
    match start {
        Some(s) => regions.push((s, max_int(active.len() - 1, s + 1))),
        None => regions,
    }
}

/// A sequence of index pairs seen as pairs of integers.
pub open spec fn int_pairs(pairs: Seq<(usize, usize)>) -> Seq<(int, int)> {
    pairs.map_values(|p: (usize, usize)| (p.0 as int, p.1 as int))
}

/// Groups frames into regions of activity, from the per-frame activity
/// decisions. Each region is (first frame, end frame).
pub fn find_active_regions(active: &[bool]) -> (regions: Vec<(usize, usize)>)
    ensures
        int_pairs(regions@) == active_regions(active@),
{
    let mut regions: Vec<(usize, usize)> = Vec::new();
    let mut active_start: Option<usize> = None;
    let mut quiet_frames: usize = 0;
    let mut index: usize = 0;
    while index < active.len()
        invariant
            index <= active@.len(),
            ({
                let (r, s, q) = scan(active@, index as nat);
                &&& int_pairs(regions@) == r
                &&& match active_start {
                    Some(a) => s == Some(a as int),
                    None => s is None,
                }
                &&& q == quiet_frames as int
            }),
            match active_start {
                Some(a) => a + quiet_frames < index,
                None => quiet_frames == 0,
            },
            forall|k: int| 0 <= k < regions@.len() ==> #[trigger] regions@[k].1 <= index,
        decreases active.len() - index,
    {
        let ghost before = regions@;
        if active[index] {
            if active_start.is_none() {
                active_start = Some(index);
            }
            quiet_frames = 0;
        } else if let Some(start) = active_start {
            quiet_frames = quiet_frames + 1;
            if quiet_frames >= QUIET_FRAMES_TO_CLOSE {
                let last_active = index - quiet_frames;
                let end = if last_active >= start + 1 {
                    last_active
                } else {
                    start + 1
                };
                regions.push((start, end));
                active_start = None;
                quiet_frames = 0;
                assert(int_pairs(regions@) =~= int_pairs(before).push((start as int, end as int)));
            }
        }
        index = index + 1;
    }
    if let Some(start) = active_start {
        let ghost before = regions@;
        let last = active.len() - 1;
        let end = if last >= start + 1 {
            last
        } else {
            start + 1
        };
        regions.push((start, end));
        assert(int_pairs(regions@) =~= int_pairs(before).push((start as int, end as int)));
    }
    regions
}

/// The regions are in order and apart: each starts at an active frame before
/// the end of the frames, ends after it starts (at most one past the last
/// frame), and ends before the next one starts.
pub open spec fn regions_well_ordered(active: Seq<bool>, regions: Seq<(int, int)>) -> bool {
    &&& forall|k: int|
        0 <= k < regions.len() ==> {
            &&& 0 <= #[trigger] regions[k].0 < regions[k].1 <= active.len()
            &&& active[regions[k].0]
        }
    &&& forall|k: int| 0 <= k < regions.len() - 1 ==> #[trigger] regions[k].1 < regions[k + 1].0
}

proof fn lemma_scan_invariant(active: Seq<bool>, n: nat)
    requires
        n <= active.len(),
    ensures
        ({
            let (r, s, q) = scan(active, n);
            &&& forall|k: int|
                0 <= k < r.len() ==> {
                    &&& 0 <= #[trigger] r[k].0 < r[k].1 < n
                    &&& active[r[k].0]
                }
            &&& forall|k: int| 0 <= k < r.len() - 1 ==> #[trigger] r[k].1 < r[k + 1].0
            &&& match s {
                Some(a) => {
                    &&& 0 <= a < n
                    &&& active[a]
                    &&& r.len() > 0 ==> r.last().1 < a
                    &&& a + q < n
                },
                None => true,
            }
            &&& 0 <= q
        }),
    decreases n,
{
    if n > 0 {
        lemma_scan_invariant(active, (n - 1) as nat);
        let (r, s, q) = scan(active, (n - 1) as nat);
        let (r2, s2, q2) = scan(active, n);
        let i = n - 1;
        if !active[i] && s is Some && q + 1 >= QUIET_FRAMES_TO_CLOSE {
            let a = s->0;
            assert(r2 == r.push((a, max_int(i - (q + 1), a + 1))));
            assert(s2 is None);
            assert forall|k: int| 0 <= k < r2.len() - 1 implies #[trigger] r2[k].1 < r2[k + 1].0 by {
                if k < r.len() - 1 {
                    assert(r2[k] == r[k] && r2[k + 1] == r[k + 1]);
                } else {
                    assert(r2[k] == r.last());
                }
            }
            assert forall|k: int| 0 <= k < r2.len() implies {
                &&& 0 <= #[trigger] r2[k].0 < r2[k].1 < n
                &&& active[r2[k].0]
            } by {
                if k < r.len() {
                    assert(r2[k] == r[k]);
                }
            }
        } else if active[i] {
            assert(r2 == r);
            assert(q2 == 0);
            if s is None {
                assert(s2 == Some(i));
                if r.len() > 0 {
                    let last = r.len() - 1;
                    assert(0 <= r[last].0 < r[last].1 < n - 1);
                }
            } else {
                assert(s2 == s);
            }
        } else if s is Some {
            assert(r2 == r && s2 == s && q2 == q + 1);
        } else {
            assert(r2 == r && s2 == s && q2 == q);
        }
    }
}

/// Law: the regions found are in order and apart (see `regions_well_ordered`).
pub proof fn active_regions_are_well_ordered(active: Seq<bool>)
    ensures
        regions_well_ordered(active, active_regions(active)),
{
    lemma_scan_invariant(active, active.len());
    let (r, s, q) = scan(active, active.len());
    let all = active_regions(active);
    if s is Some {
        assert forall|k: int| 0 <= k < all.len() - 1 implies #[trigger] all[k].1 < all[k + 1].0 by {
            if k < r.len() - 1 {
                assert(all[k] == r[k] && all[k + 1] == r[k + 1]);
            } else {
                assert(all[k] == r.last());
            }
        }
        assert forall|k: int| 0 <= k < all.len() implies {
            &&& 0 <= #[trigger] all[k].0 < all[k].1 <= active.len()
            &&& active[all[k].0]
        } by {
            if k < r.len() {
                assert(all[k] == r[k]);
            }
        }
    }
}

/// One region added to the merged list: a region that starts less than `gap`
/// frames after the start of the last merged region extends it to its own
/// end; any other region is added as it is.
pub open spec fn merge_step(merged: Seq<(int, int)>, region: (int, int), gap: int) -> Seq<(int, int)> {
    if merged.len() > 0 && region.0 < merged.last().0 + gap {
        merged.update(merged.len() - 1, (merged.last().0, region.1))
    } else {
        merged.push(region)
    }
}

/// The regions merged in order.
pub open spec fn merged_regions(regions: Seq<(int, int)>, gap: int) -> Seq<(int, int)>
    decreases regions.len(),
{
    if regions.len() == 0 {
        Seq::empty()
    } else {
        merge_step(merged_regions(regions.drop_last(), gap), regions.last(), gap)
    }
}

/// Merges regions whose starts are less than `min_gap_frames` apart.
pub fn merge_regions(regions: &[(usize, usize)], min_gap_frames: usize) -> (merged: Vec<
    (usize, usize),
>)
    ensures
        int_pairs(merged@) == merged_regions(int_pairs(regions@), min_gap_frames as int),
{
    let mut merged: Vec<(usize, usize)> = Vec::new();
    let mut i: usize = 0;
    while i < regions.len()
        invariant
            i <= regions@.len(),
            int_pairs(merged@) == merged_regions(
                int_pairs(regions@).take(i as int),
                min_gap_frames as int,
            ),
        decreases regions.len() - i,
    {
        let region = regions[i];
        let ghost before = merged@;
        proof {
            assert(int_pairs(regions@).take(i + 1).drop_last() =~= int_pairs(regions@).take(
                i as int,
            ));
        }
        let n = merged.len();
        if n > 0 {
            let last = merged[n - 1];
            if region.0 < last.0 || region.0 - last.0 < min_gap_frames {
                merged.set(n - 1, (last.0, region.1));
                assert(int_pairs(merged@) =~= int_pairs(before).update(
                    n - 1,
                    (last.0 as int, region.1 as int),
                ));
                i = i + 1;
                continue;
            }
        }
        merged.push(region);
        assert(int_pairs(merged@) =~= int_pairs(before).push((region.0 as int, region.1 as int)));
        i = i + 1;
    }
    assert(int_pairs(regions@).take(regions.len() as int) =~= int_pairs(regions@));
    merged
}

/// Law: after merging, the starts of neighbouring regions are at least `gap`
/// frames apart, no merged list is longer than its input, and it is empty
/// only when the input is.
pub proof fn merged_regions_are_apart(regions: Seq<(int, int)>, gap: int)
    ensures
        forall|k: int|
            0 <= k < merged_regions(regions, gap).len() - 1 ==> #[trigger] merged_regions(
                regions,
                gap,
            )[k].0 + gap <= merged_regions(regions, gap)[k + 1].0,
        merged_regions(regions, gap).len() <= regions.len(),
        (merged_regions(regions, gap).len() == 0) == (regions.len() == 0),
    decreases regions.len(),
{
    if regions.len() > 0 {
        let prev = merged_regions(regions.drop_last(), gap);
        merged_regions_are_apart(regions.drop_last(), gap);
        let m = merged_regions(regions, gap);
        let r = regions.last();
        if prev.len() > 0 && r.0 < prev.last().0 + gap {
            assert forall|k: int| 0 <= k < m.len() - 1 implies #[trigger] m[k].0 + gap <= m[k
                + 1].0 by {
                assert(m[k] == prev[k]);
                assert(m[k + 1].0 == prev[k + 1].0);
            }
        } else {
            assert forall|k: int| 0 <= k < m.len() - 1 implies #[trigger] m[k].0 + gap <= m[k
                + 1].0 by {
                if k < prev.len() - 1 {
                    assert(m[k] == prev[k] && m[k + 1] == prev[k + 1]);
                } else {
                    assert(m[k] == prev.last());
                }
            }
        }
    }
}

/// Region `k` starts at least `gap` frames after the start of every earlier region.
pub open spec fn starts_clear_of_earlier(regions: Seq<(int, int)>, gap: int, k: int) -> bool {
    forall|j: int| 0 <= j < k ==> #[trigger] regions[j].0 + gap <= regions[k].0
}

/// Law: merging keeps starts and ends from the input. Every merged region
/// starts where some input region starts, a merged list of a non-empty input
/// ends where the last input region ends, and an input region that starts at
/// least `gap` frames after the start of every earlier input region starts a
/// merged region of its own: the gap is measured between starts, never from
/// the end of the previous region.
pub proof fn merging_measures_gaps_between_starts(regions: Seq<(int, int)>, gap: int)
    ensures
        forall|t: int|
            0 <= t < merged_regions(regions, gap).len() ==> exists|k: int|
                0 <= k < regions.len() && #[trigger] regions[k].0 == (
                #[trigger] merged_regions(regions, gap)[t]).0,
        regions.len() > 0 ==> merged_regions(regions, gap).len() > 0 && merged_regions(
            regions,
            gap,
        ).last().1 == regions.last().1,
        forall|k: int|
            0 <= k < regions.len() && #[trigger] starts_clear_of_earlier(regions, gap, k)
                ==> exists|t: int|
                0 <= t < merged_regions(regions, gap).len() && #[trigger] merged_regions(
                    regions,
                    gap,
                )[t].0 == regions[k].0,
    decreases regions.len(),
{
    let m = merged_regions(regions, gap);
    if regions.len() > 0 {
        let prefix = regions.drop_last();
        let prev = merged_regions(prefix, gap);
        merging_measures_gaps_between_starts(prefix, gap);
        merged_regions_are_apart(prefix, gap);
        let r = regions.last();
        let n = regions.len() - 1;
        let merged_into_last = prev.len() > 0 && r.0 < prev.last().0 + gap;
        // Elements of `prev` keep their starts in `m`.
        assert forall|t: int| 0 <= t < prev.len() implies #[trigger] m[t].0 == prev[t].0 by {
            if merged_into_last {
                assert(m[t].0 == prev[t].0);
            } else {
                assert(m[t] == prev[t]);
            }
        }
        assert forall|t: int| 0 <= t < m.len() implies exists|k: int|
            0 <= k < regions.len() && #[trigger] regions[k].0 == (#[trigger] m[t]).0 by {
            if t < prev.len() {
                let k = choose|k: int| 0 <= k < prefix.len() && #[trigger] prefix[k].0 == prev[t].0;
                assert(regions[k] == prefix[k]);
                assert(regions[k].0 == m[t].0);
            } else {
                assert(m[t] == r);
                assert(regions[n].0 == m[t].0);
            }
        }
        assert forall|k: int|
            0 <= k < regions.len() && #[trigger] starts_clear_of_earlier(regions, gap, k) implies exists|t: int|
            0 <= t < m.len() && #[trigger] m[t].0 == regions[k].0 by {
            if k < n {
                assert forall|j: int| 0 <= j < k implies #[trigger] prefix[j].0 + gap <= prefix[k].0 by {
                    assert(prefix[j] == regions[j] && prefix[k] == regions[k]);
                    assert(regions[j].0 + gap <= regions[k].0);
                }
                assert(starts_clear_of_earlier(prefix, gap, k));
                let t = choose|t: int| 0 <= t < prev.len() && #[trigger] prev[t].0 == prefix[k].0;
                assert(m[t].0 == prev[t].0);
            } else {
                if prev.len() > 0 {
                    let last = prev.len() - 1;
                    let j = choose|j: int| 0 <= j < prefix.len() && #[trigger] prefix[j].0 == prev[last].0;
                    assert(regions[j] == prefix[j]);
                    assert(regions[j].0 + gap <= regions[k].0);
                }
                assert(!merged_into_last);
                assert(m[m.len() - 1] == r);
            }
        }
    }
}

/// The input index just past merged group `t`: where the next group begins,
/// or the input's length for the last group.
pub open spec fn group_end(regions: Seq<(int, int)>, first: Seq<int>, t: int) -> int {
    if t + 1 < first.len() {
        first[t + 1]
    } else {
        regions.len() as int
    }
}

/// `merged` splits `regions` into consecutive groups, group `t` running from
/// input index `first[t]` up to `group_end`: each merged region starts where
/// its group's first input region starts and ends where its group's last input
/// region ends; every other member starts less than `gap` frames after the
/// group's start, and the region that opens the next group starts at least
/// `gap` frames after it.
pub open spec fn grouped_by_start(
    regions: Seq<(int, int)>,
    merged: Seq<(int, int)>,
    gap: int,
    first: Seq<int>,
) -> bool {
    &&& first.len() == merged.len()
    &&& (merged.len() == 0) == (regions.len() == 0)
    &&& merged.len() > 0 ==> first[0] == 0
    &&& forall|t: int|
        0 <= t < merged.len() ==> {
            &&& 0 <= #[trigger] first[t] < group_end(regions, first, t) <= regions.len()
            &&& merged[t].0 == regions[first[t]].0
            &&& merged[t].1 == regions[group_end(regions, first, t) - 1].1
            &&& t + 1 < merged.len() ==> regions[first[t + 1]].0 >= merged[t].0 + gap
        }
    &&& forall|t: int, k: int|
        0 <= t < merged.len() && first[t] < k < group_end(regions, first, t) ==> #[trigger] regions[k].0
            < (#[trigger] merged[t]).0 + gap
}

/// Law: merging groups the input regions, in order, by their starts. An input
/// region joins the current merged region exactly when it starts less than
/// `gap` frames after that merged region's start, and otherwise opens a new
/// one; a merged region ends where its last member ends. The returned
/// sequence gives, for each merged region, the index of the input region that
/// opens it.
pub proof fn merging_groups_regions_by_start(regions: Seq<(int, int)>, gap: int) -> (first: Seq<int>)
    ensures
        grouped_by_start(regions, merged_regions(regions, gap), gap, first),
    decreases regions.len(),
{
    let m = merged_regions(regions, gap);
    if regions.len() == 0 {
        Seq::empty()
    } else {
        let prefix = regions.drop_last();
        let prev = merged_regions(prefix, gap);
        let fp = merging_groups_regions_by_start(prefix, gap);
        let r = regions.last();
        let n = regions.len() - 1;
        assert forall|k: int| 0 <= k < n implies #[trigger] regions[k] == prefix[k] by {}
        if prev.len() > 0 && r.0 < prev.last().0 + gap {
            let last = prev.len() - 1;
            assert(m == prev.update(last, (prev.last().0, r.1)));
            assert forall|t: int| 0 <= t < m.len() implies {
                &&& 0 <= #[trigger] fp[t] < group_end(regions, fp, t) <= regions.len()
                &&& m[t].0 == regions[fp[t]].0
                &&& m[t].1 == regions[group_end(regions, fp, t) - 1].1
                &&& t + 1 < m.len() ==> regions[fp[t + 1]].0 >= m[t].0 + gap
            } by {
                assert(0 <= fp[t] < group_end(prefix, fp, t) <= prefix.len());
                if t < last {
                    assert(group_end(regions, fp, t) == group_end(prefix, fp, t));
                    assert(regions[fp[t + 1]] == prefix[fp[t + 1]]);
                    assert(regions[group_end(regions, fp, t) - 1] == prefix[group_end(prefix, fp, t) - 1]);
                }
                assert(regions[fp[t]] == prefix[fp[t]]);
            }
            assert forall|t: int, k: int|
                0 <= t < m.len() && fp[t] < k < group_end(regions, fp, t) implies #[trigger] regions[k].0
                    < (#[trigger] m[t]).0 + gap by {
                assert(0 <= fp[t] < group_end(prefix, fp, t) <= prefix.len());
                if t < last {
                    assert(group_end(regions, fp, t) == group_end(prefix, fp, t));
                    assert(prefix[k].0 < prev[t].0 + gap);
                } else if k < n {
                    assert(prefix[k].0 < prev[t].0 + gap);
                }
            }
            assert(grouped_by_start(regions, m, gap, fp));
            fp
        } else {
            let f = fp.push(n);
            assert(m == prev.push(r));
            if prev.len() == 0 {
                assert(prefix.len() == 0);
            }
            assert forall|t: int| 0 <= t < m.len() implies {
                &&& 0 <= #[trigger] f[t] < group_end(regions, f, t) <= regions.len()
                &&& m[t].0 == regions[f[t]].0
                &&& m[t].1 == regions[group_end(regions, f, t) - 1].1
                &&& t + 1 < m.len() ==> regions[f[t + 1]].0 >= m[t].0 + gap
            } by {
                if t < prev.len() {
                    assert(f[t] == fp[t] && m[t] == prev[t]);
                    assert(0 <= fp[t] < group_end(prefix, fp, t) <= prefix.len());
                    assert(group_end(regions, f, t) == group_end(prefix, fp, t));
                    assert(regions[fp[t]] == prefix[fp[t]]);
                    assert(regions[group_end(regions, f, t) - 1] == prefix[group_end(prefix, fp, t) - 1]);
                    if t + 1 < prev.len() {
                        assert(f[t + 1] == fp[t + 1]);
                        assert(regions[fp[t + 1]] == prefix[fp[t + 1]]);
                    } else {
                        assert(f[t + 1] == n);
                    }
                } else {
                    assert(f[t] == n);
                }
            }
            assert forall|t: int, k: int|
                0 <= t < m.len() && f[t] < k < group_end(regions, f, t) implies #[trigger] regions[k].0
                    < (#[trigger] m[t]).0 + gap by {
                if t < prev.len() {
                    assert(f[t] == fp[t] && m[t] == prev[t]);
                    assert(group_end(regions, f, t) == group_end(prefix, fp, t));
                    assert(prefix[k].0 < prev[t].0 + gap);
                }
            }
            assert(grouped_by_start(regions, m, gap, f));
            f
        }
    }
}

/// Where an event lies in frames and samples.
#[derive(Debug, Clone, Copy, PartialEq, Eq, Structural)]
pub struct EventSpan {
    /// The last frame of the event: its region's end, at most 500 frames on.
    pub last_frame: usize,
    /// The first sample of its first frame.
    pub start_sample: usize,
    /// The sample after its last frame, within the recording.
    pub end_sample: usize,
    /// Where the onset search starts: 80 samples before the first sample.
    pub search_start: usize,
}

/// Places the event of a merged region in samples.
pub fn event_span(start_frame: usize, end_frame: usize, sample_count: usize) -> (span: EventSpan)
    requires
        (start_frame + MAX_EVENT_FRAMES + 1) * HOP <= usize::MAX,
    ensures
        span.last_frame == if end_frame <= start_frame + MAX_EVENT_FRAMES {
            end_frame as int
        } else {
            start_frame + MAX_EVENT_FRAMES
        },
        span.start_sample == start_frame * HOP,
        span.end_sample == if (span.last_frame + 1) * HOP <= sample_count {
            (span.last_frame + 1) * HOP
        } else {
            sample_count as int
        },
        span.search_start == if start_frame * HOP >= 80 {
            start_frame * HOP - 80
        } else {
            0
        },
{
    let last_frame = if end_frame <= start_frame + MAX_EVENT_FRAMES {
        end_frame
    } else {
        start_frame + MAX_EVENT_FRAMES
    };
    let start_sample = start_frame * HOP;
    let end_sample = if (last_frame + 1) * HOP <= sample_count {
        (last_frame + 1) * HOP
    } else {
        sample_count
    };
    let search_start = if start_sample >= 80 {
        start_sample - 80
    } else {
        0
    };
    EventSpan { last_frame, start_sample, end_sample, search_start }
}

/// Why no events were reported.
#[derive(Debug, Clone, Copy, PartialEq, Eq, Structural)]
pub enum DetectFault {
    /// The recording is too short to look for events.
    TooShort,
    /// The minimum gap between events is not a positive number.
    InvalidGap,
    /// No reliable event was found.
    NoEvents,
    /// The number of events found is not the number expected.
    CountMismatch { expected: usize, found: usize },
}

impl DetectFault {
    /// The report code of a failed detection: a count that differs from the
    /// one expected is a count mismatch; any other failure leaves the
    /// detection uncertain.
    pub fn report_code(&self) -> (code: &'static str)
        ensures
            code@ == if self is CountMismatch {
                "EVENT_COUNT_MISMATCH"@
            } else {
                "EVENT_DETECTION_UNCERTAIN"@
            },
    {
        match self {
            DetectFault::CountMismatch { .. } => "EVENT_COUNT_MISMATCH",
            _ => "EVENT_DETECTION_UNCERTAIN",
        }
    }
}

/// Refuses recordings with fewer than `MIN_DETECT_SAMPLES` samples.
pub fn check_recording_length(sample_count: usize) -> (r: Result<(), DetectFault>)
    ensures
        r == if sample_count < MIN_DETECT_SAMPLES {
            Err(DetectFault::TooShort)
        } else {
            Ok::<(), DetectFault>(())
        },
{
    if sample_count < MIN_DETECT_SAMPLES {
        Err(DetectFault::TooShort)
    } else {
        Ok(())
    }
}

/// Accepts the events found only when there is at least one and, if a count
/// was expected, exactly that many.
pub fn check_event_count(found: usize, expected: Option<usize>) -> (r: Result<(), DetectFault>)
    ensures
        r == if found == 0 {
            Err(DetectFault::NoEvents)
        } else {
            match expected {
                Some(n) => if n != found {
                    Err(DetectFault::CountMismatch { expected: n, found })
                } else {
                    Ok::<(), DetectFault>(())
                },
                None => Ok(()),
            }
        },
{
    if found == 0 {
        return Err(DetectFault::NoEvents);
    }
    match expected {
        Some(n) => if n != found {
            Err(DetectFault::CountMismatch { expected: n, found })
        } else {
            Ok(())
        },
        None => Ok(()),
    }
}

} // verus!
