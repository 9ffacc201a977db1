//! Which parts of a trimmed clip survive its removed ranges.
//!
//! Times are given by rank: the caller numbers the distinct time points of a clip (its origin
//! 0, its length, and every bound of a removed range) in increasing order, so that only their
//! order matters here. Rank `x` stands for the stretch from point `x` to point `x + 1`.
use vstd::prelude::*;

verus! {

/// A stretch `[start, end)` of the clip, in ranks.
#[derive(Debug, Clone, Copy, PartialEq, Eq, Structural)]
pub struct Span {
    pub start: u64,
    pub end: u64,
}

/// Stretch `x` lies in one of `spans`.
pub open spec fn covered(spans: Seq<Span>, x: int) -> bool {
    exists|i: int| 0 <= i < spans.len() && (#[trigger] spans[i]).start <= x < spans[i].end
}

/// Every span is non-empty and ends before the next one starts (so they are also sorted).
pub open spec fn separated(spans: Seq<Span>) -> bool {
    &&& forall|i: int| 0 <= i < spans.len() ==> (#[trigger] spans[i]).start < spans[i].end
    &&& forall|i: int, j: int| 0 <= i < j < spans.len() ==> (#[trigger] spans[i]).end < (#[trigger] spans[j]).start
}

/// `spans` are sorted by their start.
pub open spec fn sorted_by_start(spans: Seq<Span>) -> bool {
    forall|i: int, j: int| 0 <= i < j < spans.len() ==> (#[trigger] spans[i]).start <= (#[trigger] spans[j]).start
}

proof fn lemma_covered_push(t: Seq<Span>, s: Span, x: int)
    ensures
        covered(t.push(s), x) == (covered(t, x) || (s.start <= x < s.end)),
{
    let u = t.push(s);
    if covered(t, x) {
        let q = choose|q: int| 0 <= q < t.len() && (#[trigger] t[q]).start <= x < t[q].end;
        assert(u[q] == t[q]);
    }
    if s.start <= x < s.end {
        assert(u[t.len() as int] == s);
    }
    if covered(u, x) {
        let q = choose|q: int| 0 <= q < u.len() && (#[trigger] u[q]).start <= x < u[q].end;
        if q < t.len() {
            assert(t[q] == u[q]);
        }
    }
}

proof fn lemma_covered_insert(t: Seq<Span>, j: int, s: Span, x: int)
    requires
        0 <= j <= t.len(),
    ensures
        covered(t.insert(j, s), x) == (covered(t, x) || (s.start <= x < s.end)),
{
    let u = t.insert(j, s);
    if covered(t, x) {
        let q = choose|q: int| 0 <= q < t.len() && (#[trigger] t[q]).start <= x < t[q].end;
        if q < j {
            assert(u[q] == t[q]);
        } else {
            assert(u[q + 1] == t[q]);
        }
    }
    if s.start <= x < s.end {
        assert(u[j] == s);
    }
    if covered(u, x) {
        let q = choose|q: int| 0 <= q < u.len() && (#[trigger] u[q]).start <= x < u[q].end;
        if q < j {
            assert(t[q] == u[q]);
        } else if q > j {
            assert(t[q - 1] == u[q]);
        }
    }
}

/// The non-empty spans of `removed`, sorted by start.
fn sorted_nonempty(removed: &Vec<Span>) -> (r: Vec<Span>)
    ensures
        sorted_by_start(r@),
        forall|i: int| 0 <= i < r.len() ==> (#[trigger] r@[i]).start < r@[i].end,
        forall|i: int| 0 <= i < r.len() ==> removed@.contains(#[trigger] r@[i]),
        forall|x: int| covered(r@, x) == covered(removed@, x),
{
    let mut r: Vec<Span> = Vec::new();
    let mut i: usize = 0;
    while i < removed.len()
        invariant
            i <= removed.len(),
            sorted_by_start(r@),
            forall|k: int| 0 <= k < r.len() ==> (#[trigger] r@[k]).start < r@[k].end,
            forall|k: int| 0 <= k < r.len() ==> removed@.contains(#[trigger] r@[k]),
            forall|x: int| covered(r@, x) == covered(removed@.take(i as int), x),
        decreases removed.len() - i,
    {
        let s = removed[i];
        let ghost before = r@;
        let ghost mut j_at: int = 0;
        if s.start < s.end {
            let mut j: usize = 0;
            while j < r.len() && r[j].start <= s.start
                invariant
                    j <= r.len(),
                    r@ == before,
                    forall|k: int| 0 <= k < j ==> (#[trigger] r@[k]).start <= s.start,
                decreases r.len() - j,
            {
                j = j + 1;
            }
            r.insert(j, s);
            proof {
                j_at = j as int;
            }
            assert(r@ == before.insert(j as int, s));
            assert forall|a: int, b: int| 0 <= a < b < r.len() implies (#[trigger] r@[a]).start <= (#[trigger] r@[b]).start by {
                if a < j as int && b == j as int {
                } else if a == j as int {
                    assert(r@[b] == before[b - 1]);
                    if b - 1 > j as int {
                        assert(before[j as int].start <= before[b - 1].start);
                    }
                } else if a < j as int {
                    assert(r@[a] == before[a]);
                    if b > j as int {
                        assert(r@[b] == before[b - 1]);
                    } else {
                        assert(r@[b] == before[b]);
                    }
                } else {
                    assert(r@[a] == before[a - 1] && r@[b] == before[b - 1]);
                }
            }
            assert forall|k: int| 0 <= k < r.len() implies removed@.contains(#[trigger] r@[k]) by {
                if k < j as int {
                    assert(r@[k] == before[k]);
                } else if k > j as int {
                    assert(r@[k] == before[k - 1]);
                } else {
                    assert(removed@[i as int] == s);
                }
            }
            assert forall|k: int| 0 <= k < r.len() implies (#[trigger] r@[k]).start < r@[k].end by {
                if k < j as int {
                    assert(r@[k] == before[k]);
                } else if k > j as int {
                    assert(r@[k] == before[k - 1]);
                }
            }
        }
        assert forall|x: int| covered(r@, x) == (covered(before, x) || (s.start <= x < s.end)) by {
            if s.start < s.end {
                lemma_covered_insert(before, j_at, s, x);
            }
        }
        assert(removed@.take(i + 1) =~= removed@.take(i as int).push(s));
        assert forall|x: int| covered(r@, x) == covered(removed@.take(i + 1), x) by {
            assert(covered(before, x) == covered(removed@.take(i as int), x));
            lemma_covered_push(removed@.take(i as int), s, x);
        }
        i = i + 1;
    }
    assert(removed@.take(removed.len() as int) =~= removed@);
    r
}


/// The spans of `sorted` joined where they overlap or touch.
fn merge_sorted(sorted: &Vec<Span>, duration: u64) -> (m: Vec<Span>)
    requires
        sorted_by_start(sorted@),
        forall|i: int| 0 <= i < sorted.len() ==> (#[trigger] sorted@[i]).start < sorted@[i].end,
        forall|i: int| 0 <= i < sorted.len() ==> (#[trigger] sorted@[i]).end <= duration,
    ensures
        separated(m@),
        forall|i: int| 0 <= i < m.len() ==> (#[trigger] m@[i]).end <= duration,
        forall|x: int| covered(m@, x) == covered(sorted@, x),
{
    let mut m: Vec<Span> = Vec::new();
    let mut i: usize = 0;
    while i < sorted.len()
        invariant
            i <= sorted.len(),
            sorted_by_start(sorted@),
            forall|k: int| 0 <= k < sorted.len() ==> (#[trigger] sorted@[k]).start < sorted@[k].end,
            forall|k: int| 0 <= k < sorted.len() ==> (#[trigger] sorted@[k]).end <= duration,
            separated(m@),
            forall|k: int| 0 <= k < m.len() ==> (#[trigger] m@[k]).end <= duration,
            m.len() > 0 ==> forall|k: int| i <= k < sorted.len() ==> m@.last().start <= (#[trigger] sorted@[k]).start,
            i > 0 ==> m.len() > 0,
            forall|x: int| covered(m@, x) == covered(sorted@.take(i as int), x),
        decreases sorted.len() - i,
    {
        let r = sorted[i];
        let ghost before = m@;
        let n = m.len();
        if n > 0 && r.start <= m[n - 1].end {
            let last = m[n - 1];
            let end = if last.end < r.end { r.end } else { last.end };
            m.set(n - 1, Span { start: last.start, end });
            assert(m@ == before.drop_last().push(Span { start: last.start, end }));
            assert forall|x: int| covered(m@, x) == (covered(before, x) || (r.start <= x < r.end)) by {
                lemma_covered_push(before.drop_last(), Span { start: last.start, end }, x);
                lemma_covered_push(before.drop_last(), last, x);
                assert(before.drop_last().push(last) =~= before);
            }
            assert forall|a: int, b: int| 0 <= a < b < m.len() implies (#[trigger] m@[a]).end < (#[trigger] m@[b]).start by {
                assert(m@[a] == before[a]);
                if b < n - 1 {
                    assert(m@[b] == before[b]);
                }
            }
        } else {
            m.push(r);
            assert(m@ == before.push(r));
            assert forall|x: int| covered(m@, x) == (covered(before, x) || (r.start <= x < r.end)) by {
                lemma_covered_push(before, r, x);
            }
            assert forall|a: int, b: int| 0 <= a < b < m.len() implies (#[trigger] m@[a]).end < (#[trigger] m@[b]).start by {
                assert(m@[a] == before[a]);
                if b < n {
                    assert(m@[b] == before[b]);
                } else if a < n - 1 {
                    assert(before[a].end < before[n - 1].start);
                }
            }
        }
        assert(sorted@.take(i + 1) =~= sorted@.take(i as int).push(r));
        assert forall|x: int| covered(m@, x) == covered(sorted@.take(i + 1), x) by {
            assert(covered(before, x) == covered(sorted@.take(i as int), x));
            lemma_covered_push(sorted@.take(i as int), r, x);
        }
        i = i + 1;
    }
    assert(sorted@.take(sorted.len() as int) =~= sorted@);
    m
}

/// The parts of a clip of length `duration` that survive the `removed` spans: the maximal
/// stretches of `[0, duration)` that no removed span covers, in order. Removed spans are
/// cut at `duration`; empty ones remove nothing.
pub fn kept_spans(removed: &Vec<Span>, duration: u64) -> (r: Vec<Span>)
    ensures
        separated(r@),
        forall|i: int| 0 <= i < r.len() ==> (#[trigger] r@[i]).end <= duration,
        forall|x: int| 0 <= x < duration ==> (covered(r@, x) <==> !covered(removed@, x)),
{
    let mut clamped: Vec<Span> = Vec::new();
    let mut i: usize = 0;
    while i < removed.len()
        invariant
            i <= removed.len(),
            clamped.len() == i,
            forall|k: int| 0 <= k < i ==> (#[trigger] clamped@[k]).end <= duration,
            forall|k: int| 0 <= k < i ==> (#[trigger] clamped@[k]).start == if removed@[k].start < duration {
                removed@[k].start
            } else {
                duration
            },
            forall|k: int| 0 <= k < i ==> (#[trigger] clamped@[k]).end == if removed@[k].end < duration {
                removed@[k].end
            } else {
                duration
            },
        decreases removed.len() - i,
    {
        let s = removed[i];
        let start = if s.start < duration { s.start } else { duration };
        let end = if s.end < duration { s.end } else { duration };
        clamped.push(Span { start, end });
        i = i + 1;
    }
    assert forall|x: int| 0 <= x < duration implies covered(clamped@, x) == covered(removed@, x) by {
        if covered(clamped@, x) {
            let q = choose|q: int| 0 <= q < clamped.len() && (#[trigger] clamped@[q]).start <= x < clamped@[q].end;
            assert(removed@[q].start <= x < removed@[q].end);
        }
        if covered(removed@, x) {
            let q = choose|q: int| 0 <= q < removed.len() && (#[trigger] removed@[q]).start <= x < removed@[q].end;
            assert(clamped@[q].start <= x < clamped@[q].end);
        }
    }
    let sorted = sorted_nonempty(&clamped);
    assert forall|k: int| 0 <= k < sorted.len() implies (#[trigger] sorted@[k]).end <= duration by {
        let q = choose|q: int| 0 <= q < clamped.len() && clamped@[q] == sorted@[k];
    }
    let merged = merge_sorted(&sorted, duration);
    let mut kept: Vec<Span> = Vec::new();
    let mut cursor: u64 = 0;
    let mut j: usize = 0;
    while j < merged.len()
        invariant
            j <= merged.len(),
            separated(merged@),
            forall|k: int| 0 <= k < merged.len() ==> (#[trigger] merged@[k]).end <= duration,
            cursor <= duration,
            j > 0 ==> cursor == merged@[j - 1].end,
            j == 0 ==> cursor == 0,
            separated(kept@),
            forall|k: int| 0 <= k < kept.len() ==> (#[trigger] kept@[k]).end < cursor,
            forall|x: int| 0 <= x < cursor ==> (covered(kept@, x) <==> !covered(merged@.take(j as int), x)),
            forall|x: int| x >= cursor ==> !#[trigger] covered(merged@.take(j as int), x),
        decreases merged.len() - j,
    {
        let span = merged[j];
        let ghost before = kept@;
        let ghost old_cursor = cursor;
        if span.start > cursor {
            kept.push(Span { start: cursor, end: span.start });
            assert forall|a: int, b: int| 0 <= a < b < kept.len() implies (#[trigger] kept@[a]).end < (#[trigger] kept@[b]).start by {
                assert(kept@[a] == before[a]);
                if b < before.len() {
                    assert(kept@[b] == before[b]);
                }
            }
        }
        cursor = span.end;
        assert(merged@.take(j + 1) =~= merged@.take(j as int).push(span));
        assert forall|x: int| 0 <= x < cursor implies (covered(kept@, x) <==> !covered(merged@.take(j + 1), x)) by {
            lemma_covered_push(merged@.take(j as int), span, x);
            if span.start > old_cursor {
                lemma_covered_push(before, Span { start: old_cursor, end: span.start }, x);
                assert(kept@ == before.push(Span { start: old_cursor, end: span.start }));
            }
            if x >= old_cursor && covered(before, x) {
                let q = choose|q: int| 0 <= q < before.len() && (#[trigger] before[q]).start <= x < before[q].end;
            }
        }
        assert forall|x: int| x >= cursor implies !#[trigger] covered(merged@.take(j + 1), x) by {
            lemma_covered_push(merged@.take(j as int), span, x);
        }
        assert forall|k: int| 0 <= k < kept.len() implies (#[trigger] kept@[k]).end < cursor by {
            if k < before.len() {
                assert(kept@[k] == before[k]);
            }
        }
        j = j + 1;
    }
    assert(merged@.take(merged.len() as int) =~= merged@);
    let ghost before = kept@;
    if cursor < duration {
        kept.push(Span { start: cursor, end: duration });
        assert forall|a: int, b: int| 0 <= a < b < kept.len() implies (#[trigger] kept@[a]).end < (#[trigger] kept@[b]).start by {
            assert(kept@[a] == before[a]);
            if b < before.len() {
                assert(kept@[b] == before[b]);
            }
        }
        assert forall|k: int| 0 <= k < kept.len() implies (#[trigger] kept@[k]).end <= duration by {
            if k < before.len() {
                assert(kept@[k] == before[k]);
            }
        }
    }
    assert forall|x: int| 0 <= x < duration implies (covered(kept@, x) <==> !covered(removed@, x)) by {
        assert(covered(merged@, x) == covered(sorted@, x));
        assert(covered(sorted@, x) == covered(clamped@, x));
        if cursor < duration {
            lemma_covered_push(before, Span { start: cursor, end: duration }, x);
            assert(kept@ == before.push(Span { start: cursor, end: duration }));
            if x >= cursor && covered(before, x) {
                let q = choose|q: int| 0 <= q < before.len() && (#[trigger] before[q]).start <= x < before[q].end;
            }
        }
    }
    kept
}


/// The first stretch that a separated list covers is where its first span starts, and nothing
/// before the end of a span is covered by a later one.
proof fn lemma_separated_cover(a: Seq<Span>, x: int)
    requires
        separated(a),
        a.len() > 0,
    ensures
        x < a[0].start ==> !covered(a, x),
        covered(a, x) && x >= a[0].end ==> covered(a.drop_first(), x),
        covered(a.drop_first(), x) ==> covered(a, x) && x > a[0].end,
{
    if covered(a, x) {
        let q = choose|q: int| 0 <= q < a.len() && (#[trigger] a[q]).start <= x < a[q].end;
        if q > 0 {
            assert(a[0].end < a[q].start);
            assert(a.drop_first()[q - 1] == a[q]);
        }
    }
    if covered(a.drop_first(), x) {
        let q = choose|q: int| 0 <= q < a.drop_first().len() && (#[trigger] a.drop_first()[q]).start <= x
            < a.drop_first()[q].end;
        assert(a.drop_first()[q] == a[q + 1]);
        assert(a[0].end < a[q + 1].start);
    }
}

/// The kept parts are determined by what they cover: two separated lists of spans inside
/// `[0, duration)` that cover the same stretches are the same list.
pub proof fn lemma_spans_determined_by_cover(a: Seq<Span>, b: Seq<Span>, duration: u64)
    requires
        separated(a),
        separated(b),
        forall|i: int| 0 <= i < a.len() ==> (#[trigger] a[i]).end <= duration,
        forall|i: int| 0 <= i < b.len() ==> (#[trigger] b[i]).end <= duration,
        forall|x: int| 0 <= x < duration ==> covered(a, x) == covered(b, x),
    ensures
        a == b,
    decreases a.len() + b.len(),
{
    if a.len() == 0 && b.len() == 0 {
        assert(a =~= b);
    } else if a.len() == 0 {
        let x = b[0].start as int;
        assert(covered(b, x));
        assert(!covered(a, x));
    } else if b.len() == 0 {
        let x = a[0].start as int;
        assert(covered(a, x));
        assert(!covered(b, x));
    } else {
        let sa = a[0].start as int;
        let sb = b[0].start as int;
        lemma_separated_cover(a, sb);
        lemma_separated_cover(b, sa);
        assert(covered(a, sa));
        assert(covered(b, sb));
        assert(sa == sb);
        let ea = a[0].end as int;
        let eb = b[0].end as int;
        lemma_separated_cover(a, eb);
        lemma_separated_cover(b, ea);
        if ea < eb {
            assert(covered(b, ea));
            assert(covered(a, ea) ==> covered(a.drop_first(), ea));
        } else if eb < ea {
            assert(covered(a, eb));
            assert(covered(b, eb) ==> covered(b.drop_first(), eb));
        }
        assert(a[0] == b[0]);
        let ta = a.drop_first();
        let tb = b.drop_first();
        assert forall|i: int| 0 <= i < ta.len() implies (#[trigger] ta[i]).end <= duration by {
            assert(ta[i] == a[i + 1]);
        }
        assert forall|i: int| 0 <= i < tb.len() implies (#[trigger] tb[i]).end <= duration by {
            assert(tb[i] == b[i + 1]);
        }
        assert forall|x: int| 0 <= x < duration implies covered(ta, x) == covered(tb, x) by {
            lemma_separated_cover(a, x);
            lemma_separated_cover(b, x);
        }
        assert(separated(ta)) by {
            assert forall|i: int| 0 <= i < ta.len() implies (#[trigger] ta[i]).start < ta[i].end by {
                assert(ta[i] == a[i + 1]);
            }
            assert forall|i: int, j: int| 0 <= i < j < ta.len() implies (#[trigger] ta[i]).end < (#[trigger] ta[j]).start by {
                assert(ta[i] == a[i + 1] && ta[j] == a[j + 1]);
            }
        }
        assert(separated(tb)) by {
            assert forall|i: int| 0 <= i < tb.len() implies (#[trigger] tb[i]).start < tb[i].end by {
                assert(tb[i] == b[i + 1]);
            }
            assert forall|i: int, j: int| 0 <= i < j < tb.len() implies (#[trigger] tb[i]).end < (#[trigger] tb[j]).start by {
                assert(tb[i] == b[i + 1] && tb[j] == b[j + 1]);
            }
        }
        lemma_spans_determined_by_cover(ta, tb, duration);
        assert(a =~= seq![a[0]] + ta);
        assert(b =~= seq![b[0]] + tb);
    }
}

/// Removing nothing keeps the whole clip as one part; removing a span that covers the whole
/// clip keeps nothing.
pub proof fn lemma_kept_extremes(removed: Seq<Span>, kept: Seq<Span>, duration: u64)
    requires
        separated(kept),
        forall|i: int| 0 <= i < kept.len() ==> (#[trigger] kept[i]).end <= duration,
        forall|x: int| 0 <= x < duration ==> (covered(kept, x) <==> !covered(removed, x)),
    ensures
        removed.len() == 0 && duration > 0 ==> kept == seq![Span { start: 0, end: duration }],
        (exists|i: int| 0 <= i < removed.len() && (#[trigger] removed[i]).start == 0 && removed[i].end >= duration)
            ==> kept.len() == 0,
{
    if removed.len() == 0 && duration > 0 {
        let whole = seq![Span { start: 0, end: duration }];
        assert forall|x: int| 0 <= x < duration implies covered(kept, x) == covered(whole, x) by {
            assert(whole[0].start <= x < whole[0].end);
        }
        lemma_spans_determined_by_cover(kept, whole, duration);
    }
    if exists|i: int| 0 <= i < removed.len() && (#[trigger] removed[i]).start == 0 && removed[i].end >= duration {
        let i = choose|i: int| 0 <= i < removed.len() && (#[trigger] removed[i]).start == 0 && removed[i].end >= duration;
        if kept.len() > 0 {
            let x = kept[0].start as int;
            assert(covered(kept, x));
            assert(removed[i].start <= x < removed[i].end);
        }
    }
}

} // verus!
