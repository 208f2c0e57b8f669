use vstd::prelude::*;

verus! {

/// `a` comes strictly before `b` in lexicographic order.
pub open spec fn lex_lt(a: (i64, i64), b: (i64, i64)) -> bool {
    a.0 < b.0 || (a.0 == b.0 && a.1 < b.1)
}

/// `a` comes strictly before `b` when pairs are ordered by their second element first.
pub open spec fn colex_lt(a: (i64, i64), b: (i64, i64)) -> bool {
    a.1 < b.1 || (a.1 == b.1 && a.0 < b.0)
}

/// A VD insertion from V 3' end `ev` to D 5' start `sd`: `ev` in `[start_v3, end_v3)`, `sd` in
/// `[start_d5, end_d5)`, `ev <= sd`, and at most `max_ins` inserted nucleotides.
pub open spec fn is_vd_span(
    p: (i64, i64),
    start_v3: i64,
    end_v3: i64,
    start_d5: i64,
    end_d5: i64,
    max_ins: usize,
) -> bool {
    &&& start_v3 <= p.0 < end_v3
    &&& start_d5 <= p.1 < end_d5
    &&& p.0 <= p.1
    &&& p.1 - p.0 <= max_ins
}

/// A DJ insertion from D 3' end `ed` to J 5' start `sj`: `ed` in `[start_d3, end_d3)`, `sj` in
/// `[start_j5, end_j5)`, `ed <= sj`, and at most `max_ins` inserted nucleotides.
pub open spec fn is_dj_span(
    p: (i64, i64),
    start_d3: i64,
    end_d3: i64,
    start_j5: i64,
    end_j5: i64,
    max_ins: usize,
) -> bool {
    &&& start_d3 <= p.0 < end_d3
    &&& start_j5 <= p.1 < end_j5
    &&& p.0 <= p.1
    &&& p.1 - p.0 <= max_ins
}

/// Every `(ev, sd)` VD insertion span, in increasing `(ev, sd)` order.
pub fn vd_insertion_spans(
    start_v3: i64,
    end_v3: i64,
    start_d5: i64,
    end_d5: i64,
    max_ins: usize,
) -> (r: Vec<(i64, i64)>)
    ensures
        forall|k: int|
            0 <= k < r@.len() ==> is_vd_span(#[trigger] r@[k], start_v3, end_v3, start_d5, end_d5, max_ins),
        forall|p: (i64, i64)|
            is_vd_span(p, start_v3, end_v3, start_d5, end_d5, max_ins) ==> #[trigger] r@.contains(p),
        forall|k: int, l: int| 0 <= k < l < r@.len() ==> lex_lt(#[trigger] r@[k], #[trigger] r@[l]),
{
    let mut out: Vec<(i64, i64)> = Vec::new();
    let mut ev: i64 = start_v3;
    if end_v3 <= start_v3 {
        return out;
    }
    while ev < end_v3
        invariant
            start_v3 <= ev <= end_v3,
            forall|k: int|
                0 <= k < out@.len() ==> is_vd_span(#[trigger] out@[k], start_v3, end_v3, start_d5, end_d5, max_ins)
                    && out@[k].0 < ev,
            forall|p: (i64, i64)|
                is_vd_span(p, start_v3, end_v3, start_d5, end_d5, max_ins) && p.0 < ev
                    ==> #[trigger] out@.contains(p),
            forall|k: int, l: int| 0 <= k < l < out@.len() ==> lex_lt(#[trigger] out@[k], #[trigger] out@[l]),
        decreases end_v3 - ev,
    {
        let mut sd: i64 = if ev > start_d5 { ev } else { start_d5 };
        while sd < end_d5
            invariant
                start_v3 <= ev < end_v3,
                sd >= ev,
                sd >= start_d5,
                forall|k: int|
                    0 <= k < out@.len() ==> is_vd_span(#[trigger] out@[k], start_v3, end_v3, start_d5, end_d5, max_ins)
                        && lex_lt(out@[k], (ev, sd)),
                forall|p: (i64, i64)|
                    is_vd_span(p, start_v3, end_v3, start_d5, end_d5, max_ins) && lex_lt(p, (ev, sd))
                        ==> #[trigger] out@.contains(p),
                forall|k: int, l: int| 0 <= k < l < out@.len() ==> lex_lt(#[trigger] out@[k], #[trigger] out@[l]),
            decreases end_d5 - sd,
        {
            if sd as i128 - ev as i128 <= max_ins as i128 {
                let ghost before = out@;
                out.push((ev, sd));
                assert forall|p: (i64, i64)|
                    is_vd_span(p, start_v3, end_v3, start_d5, end_d5, max_ins) && lex_lt(p, (ev, (sd + 1) as i64))
                        implies #[trigger] out@.contains(p) by {
                    if p == (ev, sd) {
                        assert(out@[out@.len() - 1] == p);
                    } else {
                        assert(before.contains(p));
                        let k = choose|k: int| 0 <= k < before.len() && before[k] == p;
                        assert(out@[k] == p);
                    }
                }
            } else {
                assert forall|p: (i64, i64)|
                    is_vd_span(p, start_v3, end_v3, start_d5, end_d5, max_ins) && lex_lt(p, (ev, (sd + 1) as i64))
                        implies #[trigger] out@.contains(p) by {
                    assert(p != (ev, sd));
                }
            }
            sd = sd + 1;
        }
        assert forall|p: (i64, i64)|
            is_vd_span(p, start_v3, end_v3, start_d5, end_d5, max_ins) && p.0 < ev + 1
                implies #[trigger] out@.contains(p) by {
            assert(lex_lt(p, (ev, sd)));
        }
        ev = ev + 1;
    }
    out
}

/// Every `(ed, sj)` DJ insertion span, ordered by `sj` and then by `ed`.
pub fn dj_insertion_spans(
    start_d3: i64,
    end_d3: i64,
    start_j5: i64,
    end_j5: i64,
    max_ins: usize,
) -> (r: Vec<(i64, i64)>)
    ensures
        forall|k: int|
            0 <= k < r@.len() ==> is_dj_span(#[trigger] r@[k], start_d3, end_d3, start_j5, end_j5, max_ins),
        forall|p: (i64, i64)|
            is_dj_span(p, start_d3, end_d3, start_j5, end_j5, max_ins) ==> #[trigger] r@.contains(p),
        forall|k: int, l: int| 0 <= k < l < r@.len() ==> colex_lt(#[trigger] r@[k], #[trigger] r@[l]),
{
    let mut out: Vec<(i64, i64)> = Vec::new();
    let mut sj: i64 = start_j5;
    if end_j5 <= start_j5 {
        return out;
    }
    while sj < end_j5
        invariant
            start_j5 <= sj <= end_j5,
            forall|k: int|
                0 <= k < out@.len() ==> is_dj_span(#[trigger] out@[k], start_d3, end_d3, start_j5, end_j5, max_ins)
                    && out@[k].1 < sj,
            forall|p: (i64, i64)|
                is_dj_span(p, start_d3, end_d3, start_j5, end_j5, max_ins) && p.1 < sj
                    ==> #[trigger] out@.contains(p),
            forall|k: int, l: int| 0 <= k < l < out@.len() ==> colex_lt(#[trigger] out@[k], #[trigger] out@[l]),
        decreases end_j5 - sj,
    {
        let mut ed: i64 = start_d3;
        let ed_end: i64 = if end_d3 < sj + 1 { end_d3 } else { sj + 1 };
        while ed < ed_end
            invariant
                start_j5 <= sj < end_j5,
                ed_end as int == if end_d3 < sj + 1 { end_d3 as int } else { sj + 1 },
                ed >= start_d3,
                forall|k: int|
                    0 <= k < out@.len() ==> is_dj_span(#[trigger] out@[k], start_d3, end_d3, start_j5, end_j5, max_ins)
                        && colex_lt(out@[k], (ed, sj)),
                forall|p: (i64, i64)|
                    is_dj_span(p, start_d3, end_d3, start_j5, end_j5, max_ins) && colex_lt(p, (ed, sj))
                        ==> #[trigger] out@.contains(p),
                forall|k: int, l: int| 0 <= k < l < out@.len() ==> colex_lt(#[trigger] out@[k], #[trigger] out@[l]),
            decreases ed_end - ed,
        {
            if sj as i128 - ed as i128 <= max_ins as i128 {
                let ghost before = out@;
                out.push((ed, sj));
                assert forall|p: (i64, i64)|
                    is_dj_span(p, start_d3, end_d3, start_j5, end_j5, max_ins) && colex_lt(p, ((ed + 1) as i64, sj))
                        implies #[trigger] out@.contains(p) by {
                    if p == (ed, sj) {
                        assert(out@[out@.len() - 1] == p);
                    } else {
                        assert(before.contains(p));
                        let k = choose|k: int| 0 <= k < before.len() && before[k] == p;
                        assert(out@[k] == p);
                    }
                }
            } else {
                assert forall|p: (i64, i64)|
                    is_dj_span(p, start_d3, end_d3, start_j5, end_j5, max_ins) && colex_lt(p, ((ed + 1) as i64, sj))
                        implies #[trigger] out@.contains(p) by {
                    assert(p != (ed, sj));
                }
            }
            ed = ed + 1;
        }
        assert forall|p: (i64, i64)|
            is_dj_span(p, start_d3, end_d3, start_j5, end_j5, max_ins) && p.1 < sj + 1
                implies #[trigger] out@.contains(p) by {
            if p.1 == sj {
                assert(colex_lt(p, (ed, sj)));
            }
        }
        sj = sj + 1;
    }
    out
}

/// The coordinate ranges of one read: V 3' end in `[start_v3, end_v3)`, D 5' start in
/// `[start_d5, end_d5)`, D 3' end in `[start_d3, end_d3)`, J 5' start in `[start_j5, end_j5)`,
/// and the longest VD and DJ insertions.
#[derive(Clone, Copy, Debug)]
pub struct EventBounds {
    pub start_v3: i64,
    pub end_v3: i64,
    pub start_d5: i64,
    pub end_d5: i64,
    pub start_d3: i64,
    pub end_d3: i64,
    pub start_j5: i64,
    pub end_j5: i64,
    pub max_ins_vd: usize,
    pub max_ins_dj: usize,
}

/// `(ev, sd, ed, sj)` lies in the ranges of `b`, with `ev <= sd <= ed <= sj` and insertions no
/// longer than allowed.
pub open spec fn is_event(p: (i64, i64, i64, i64), b: EventBounds) -> bool {
    &&& b.start_v3 <= p.0 < b.end_v3
    &&& b.start_d5 <= p.1 < b.end_d5
    &&& b.start_d3 <= p.2 < b.end_d3
    &&& b.start_j5 <= p.3 < b.end_j5
    &&& p.0 <= p.1 <= p.2 <= p.3
    &&& p.1 - p.0 <= b.max_ins_vd
    &&& p.3 - p.2 <= b.max_ins_dj
}

/// Lexicographic order on coordinate tuples.
pub open spec fn lex_lt4(a: (i64, i64, i64, i64), b: (i64, i64, i64, i64)) -> bool {
    ||| a.0 < b.0
    ||| (a.0 == b.0 && a.1 < b.1)
    ||| (a.0 == b.0 && a.1 == b.1 && a.2 < b.2)
    ||| (a.0 == b.0 && a.1 == b.1 && a.2 == b.2 && a.3 < b.3)
}

/// Every coordinate tuple `(ev, sd, ed, sj)` of one read that an event can take, in
/// increasing lexicographic order.
#[verifier::rlimit(40)]
pub fn event_coordinates(b: EventBounds) -> (r: Vec<(i64, i64, i64, i64)>)
    ensures
        forall|k: int| 0 <= k < r@.len() ==> is_event(#[trigger] r@[k], b),
        forall|p: (i64, i64, i64, i64)| is_event(p, b) ==> #[trigger] r@.contains(p),
        forall|k: int, l: int| 0 <= k < l < r@.len() ==> lex_lt4(#[trigger] r@[k], #[trigger] r@[l]),
{
    let mut out: Vec<(i64, i64, i64, i64)> = Vec::new();
    let mut ev: i64 = b.start_v3;
    while ev < b.end_v3
        invariant
            ev >= b.start_v3,
            forall|k: int| 0 <= k < out@.len() ==> is_event(#[trigger] out@[k], b) && out@[k].0 < ev,
            forall|p: (i64, i64, i64, i64)| is_event(p, b) && p.0 < ev ==> #[trigger] out@.contains(p),
            forall|k: int, l: int| 0 <= k < l < out@.len() ==> lex_lt4(#[trigger] out@[k], #[trigger] out@[l]),
        decreases b.end_v3 - ev,
    {
        let mut sd: i64 = if ev > b.start_d5 { ev } else { b.start_d5 };
        while sd < b.end_d5
            invariant
                b.start_v3 <= ev < b.end_v3,
                sd >= ev,
                sd >= b.start_d5,
                forall|k: int|
                    0 <= k < out@.len() ==> is_event(#[trigger] out@[k], b) && (out@[k].0 < ev || (
                    out@[k].0 == ev && out@[k].1 < sd)),
                forall|p: (i64, i64, i64, i64)|
                    is_event(p, b) && (p.0 < ev || (p.0 == ev && p.1 < sd)) ==> #[trigger] out@.contains(p),
                forall|k: int, l: int| 0 <= k < l < out@.len() ==> lex_lt4(#[trigger] out@[k], #[trigger] out@[l]),
            decreases b.end_d5 - sd,
        {
            if sd as i128 - ev as i128 <= b.max_ins_vd as i128 {
                let mut ed: i64 = if sd > b.start_d3 { sd } else { b.start_d3 };
                while ed < b.end_d3
                    invariant
                        b.start_v3 <= ev < b.end_v3,
                        b.start_d5 <= sd < b.end_d5,
                        ev <= sd,
                        sd - ev <= b.max_ins_vd,
                        ed >= sd,
                        ed >= b.start_d3,
                        forall|k: int|
                            0 <= k < out@.len() ==> is_event(#[trigger] out@[k], b) && (out@[k].0 < ev || (
                            out@[k].0 == ev && out@[k].1 < sd) || (out@[k].0 == ev && out@[k].1 == sd
                                && out@[k].2 < ed)),
                        forall|p: (i64, i64, i64, i64)|
                            is_event(p, b) && (p.0 < ev || (p.0 == ev && p.1 < sd) || (p.0 == ev && p.1
                                == sd && p.2 < ed)) ==> #[trigger] out@.contains(p),
                        forall|k: int, l: int|
                            0 <= k < l < out@.len() ==> lex_lt4(#[trigger] out@[k], #[trigger] out@[l]),
                    decreases b.end_d3 - ed,
                {
                    let mut sj: i64 = if ed > b.start_j5 { ed } else { b.start_j5 };
                    while sj < b.end_j5
                        invariant
                            b.start_v3 <= ev < b.end_v3,
                            b.start_d5 <= sd < b.end_d5,
                            b.start_d3 <= ed < b.end_d3,
                            ev <= sd <= ed,
                            sd - ev <= b.max_ins_vd,
                            sj >= ed,
                            sj >= b.start_j5,
                            forall|k: int|
                                0 <= k < out@.len() ==> is_event(#[trigger] out@[k], b) && lex_lt4(
                                    out@[k],
                                    (ev, sd, ed, sj),
                                ),
                            forall|p: (i64, i64, i64, i64)|
                                is_event(p, b) && lex_lt4(p, (ev, sd, ed, sj)) ==> #[trigger] out@.contains(p),
                            forall|k: int, l: int|
                                0 <= k < l < out@.len() ==> lex_lt4(#[trigger] out@[k], #[trigger] out@[l]),
                        decreases b.end_j5 - sj,
                    {
                        let ghost cur = (ev, sd, ed, sj);
                        let ghost next = (ev, sd, ed, (sj + 1) as i64);
                        if sj as i128 - ed as i128 <= b.max_ins_dj as i128 {
                            let ghost before = out@;
                            out.push((ev, sd, ed, sj));
                            assert forall|p: (i64, i64, i64, i64)|
                                is_event(p, b) && lex_lt4(p, next) implies #[trigger] out@.contains(p) by {
                                if p == cur {
                                    assert(out@[out@.len() - 1] == p);
                                } else {
                                    assert(before.contains(p));
                                    let k = choose|k: int| 0 <= k < before.len() && before[k] == p;
                                    assert(out@[k] == p);
                                }
                            }
                        } else {
                            assert forall|p: (i64, i64, i64, i64)|
                                is_event(p, b) && lex_lt4(p, next) implies #[trigger] out@.contains(p) by {
                                assert(p != cur);
                            }
                        }
                        sj = sj + 1;
                    }
                    assert forall|p: (i64, i64, i64, i64)|
                        is_event(p, b) && (p.0 < ev || (p.0 == ev && p.1 < sd) || (p.0 == ev && p.1 == sd
                            && p.2 < ed + 1)) implies #[trigger] out@.contains(p) by {
                        assert(lex_lt4(p, (ev, sd, ed, sj)));
                    }
                    ed = ed + 1;
                }
            } else {
                assert forall|p: (i64, i64, i64, i64)|
                    is_event(p, b) && (p.0 < ev || (p.0 == ev && p.1 < sd + 1)) implies #[trigger] out@.contains(p) by {
                    assert(p.0 < ev || (p.0 == ev && p.1 < sd));
                }
            }
            sd = sd + 1;
        }
        ev = ev + 1;
    }
    out
}

} // verus!
