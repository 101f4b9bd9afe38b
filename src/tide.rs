//! The calendar side of one tidal half-cycle: placing the two anchors in
//! time, the instants at which the level is sampled, and the table layout.

use crate::clock::{clock_text, DateTime, TimeOfDay, MS_PER_DAY};
use vstd::arithmetic::div_mod::lemma_fundamental_div_mod_converse;
use vstd::prelude::*;

verus! {

/// `time` on day `day`.
pub open spec fn anchored(day: int, time: TimeOfDay) -> DateTime {
    DateTime { day: day as i64, ms: time.millis() as u32 }
}

/// The end anchor for a cycle that starts at `start` on `today`: `end` on
/// the same day where it comes strictly after `start`, else on the next day.
pub open spec fn end_anchor(today: int, start: TimeOfDay, end: TimeOfDay) -> DateTime {
    if end.millis() <= start.millis() {
        anchored(today + 1, end)
    } else {
        anchored(today, end)
    }
}

pub open spec fn or_midnight(t: Option<TimeOfDay>) -> TimeOfDay {
    match t {
        Some(t) => t,
        None => TimeOfDay { hour: 0, minute: 0, second: 0 },
    }
}

fn rolled_end(today: i32, start: TimeOfDay, end: TimeOfDay) -> (r: DateTime)
    requires
        start.wf(),
        end.wf(),
    ensures
        r == end_anchor(today as int, start, end),
        r.wf(),
{
    let e = DateTime::on_day(today, end);
    if end.to_millis() <= start.to_millis() {
        e.next_day()
    } else {
        e
    }
}

/// The span of a cycle anchored on one day is the end's clock reading less
/// the start's, plus a whole day where the end does not come after the
/// start; it is always positive and at most one day.
pub proof fn lemma_anchor_span(today: i32, start: TimeOfDay, end: TimeOfDay)
    requires
        start.wf(),
        end.wf(),
    ensures
        end_anchor(today as int, start, end).instant() - anchored(today as int, start).instant()
            == end.millis()
            - start.millis() + if end.millis() <= start.millis() {
            MS_PER_DAY as int
        } else {
            0
        },
        0 < end_anchor(today as int, start, end).instant() - anchored(today as int, start).instant()
            <= MS_PER_DAY,
{
    assert(0 <= start.millis() < MS_PER_DAY && 0 <= end.millis() < MS_PER_DAY) by (nonlinear_arith)
        requires
            start.wf(),
            end.wf(),
    ;
    let t = today as int;
    assert((t + 1) * MS_PER_DAY == t * MS_PER_DAY + MS_PER_DAY) by (nonlinear_arith);
}

/// Places both anchors on `today`, reading a missing time as midnight, and
/// moves the end to the next day where it would not come after the start.
pub fn anchor_times(today: i32, start: Option<TimeOfDay>, end: Option<TimeOfDay>) -> (r: (
    DateTime,
    DateTime,
))
    requires
        start matches Some(t) ==> t.wf(),
        end matches Some(t) ==> t.wf(),
    ensures
        r.0 == anchored(today as int, or_midnight(start)),
        r.1 == end_anchor(today as int, or_midnight(start), or_midnight(end)),
        r.0.wf() && r.1.wf(),
        r.0.instant() < r.1.instant() <= r.0.instant() + MS_PER_DAY,
{
    let s = match start {
        Some(t) => t,
        None => TimeOfDay::midnight(),
    };
    let e = match end {
        Some(t) => t,
        None => TimeOfDay::midnight(),
    };
    (DateTime::on_day(today, s), rolled_end(today, s, e))
}

/// Places the anchors that are given on `today`; the end moves to the next
/// day where a start is given and the end would not come after it.
pub fn anchor_given(today: i32, start: Option<TimeOfDay>, end: Option<TimeOfDay>) -> (r: (
    Option<DateTime>,
    Option<DateTime>,
))
    requires
        start matches Some(t) ==> t.wf(),
        end matches Some(t) ==> t.wf(),
    ensures
        r.0 == (match start {
            Some(s) => Some(anchored(today as int, s)),
            None => None::<DateTime>,
        }),
        r.1 == (match (start, end) {
            (Some(s), Some(e)) => Some(end_anchor(today as int, s, e)),
            (None, Some(e)) => Some(anchored(today as int, e)),
            (_, None) => None::<DateTime>,
        }),
        r.0 matches Some(a) ==> a.wf(),
        r.1 matches Some(b) ==> b.wf(),
{
    let s = match start {
        Some(t) => Some(DateTime::on_day(today, t)),
        None => None,
    };
    let e = match end {
        Some(e) => match start {
            Some(st) => Some(rolled_end(today, st, e)),
            None => Some(DateTime::on_day(today, e)),
        },
        None => None,
    };
    (s, e)
}

/// How many samples a span of `span` milliseconds holds at one per `step`
/// milliseconds, counting the one at zero and, where it lands on a step,
/// the one at the very end; none for a step that is not positive.
pub open spec fn sample_count(span: int, step: int) -> int {
    if step <= 0 || span < 0 {
        0
    } else {
        span / step + 1
    }
}

/// The offsets from the start, in milliseconds, at which the level is
/// sampled: `0, step, 2 * step, ...` up to and including `span`. A step
/// that is not positive gives no samples.
pub fn sample_offsets(span: i64, step: i64) -> (r: Vec<i64>)
    ensures
        r@.len() == sample_count(span as int, step as int),
        forall|k: int| 0 <= k < r@.len() ==> #[trigger] r@[k] == k * step,
        forall|k: int| 0 <= k < r@.len() ==> 0 <= #[trigger] r@[k] <= span,
{
    let mut r: Vec<i64> = Vec::new();
    if step <= 0 || span < 0 {
        return r;
    }
    let mut current: i64 = 0;
    assert(0 * step == 0);
    loop
        invariant
            step > 0,
            span >= 0,
            0 <= current <= span,
            current == r@.len() * step,
            forall|k: int| 0 <= k < r@.len() ==> #[trigger] r@[k] == k * step,
            forall|k: int| 0 <= k < r@.len() ==> 0 <= #[trigger] r@[k] <= span,
        decreases span - current,
    {
        r.push(current);
        if step > span - current {
            proof {
                assert(span / step == r@.len() - 1) by (nonlinear_arith)
                    requires
                        current == (r@.len() - 1) * step,
                        current <= span < current + step,
                        step > 0,
                ;
            }
            return r;
        }
        current = current + step;
        proof {
            assert(current == r@.len() * step) by (nonlinear_arith)
                requires
                    current == (r@.len() - 1) * step + step,
            ;
        }
    }
}

/// The clock reading at `instant` milliseconds from the midnight that opens
/// day zero, to the whole second.
pub open spec fn clock_at(instant: int) -> TimeOfDay {
    let ms = instant % (MS_PER_DAY as int);
    TimeOfDay {
        hour: (ms / 3_600_000) as u32,
        minute: ((ms / 60_000) % 60) as u32,
        second: ((ms / 1000) % 60) as u32,
    }
}

/// One line of the table: the clock reading `offset` milliseconds after
/// `start`, then `" -- "`, then the level text.
pub open spec fn row_text(start: DateTime, offset: int, value: Seq<char>) -> Seq<char> {
    clock_text(clock_at(start.instant() + offset)) + seq![' ', '-', '-', ' '] + value
}

/// The lines of the table, one per sample.
pub open spec fn table_lines(start: DateTime, offsets: Seq<i64>, values: Seq<String>) -> Seq<
    Seq<char>,
> {
    Seq::new(offsets.len(), |k: int| row_text(start, offsets[k] as int, values[k]@))
}

/// `lines` with a single newline between each two, none before or after.
pub open spec fn joined(lines: Seq<Seq<char>>) -> Seq<char>
    decreases lines.len(),
{
    if lines.len() == 0 {
        Seq::empty()
    } else if lines.len() == 1 {
        lines[0]
    } else {
        joined(lines.drop_last()) + seq!['\n'] + lines.last()
    }
}

proof fn lemma_clock_at(d: DateTime)
    requires
        d.wf(),
    ensures
        d.ms == d.instant() % (MS_PER_DAY as int),
{
    lemma_fundamental_div_mod_converse(d.instant(), MS_PER_DAY as int, d.day as int, d.ms as int);
}

/// Lays out the table of a cycle from `start` to `end`: for each sample, the
/// clock reading `offsets[k]` milliseconds after `start` and the level text
/// `values[k]`.
pub fn render_table(start: &DateTime, end: &DateTime, offsets: &Vec<i64>, values: &Vec<String>) -> (r:
    String)
    requires
        start.wf(),
        end.wf(),
        offsets@.len() == values@.len(),
        forall|k: int|
            0 <= k < offsets@.len() ==> 0 <= #[trigger] offsets@[k] <= end.instant()
                - start.instant(),
    ensures
        r@ == joined(table_lines(*start, offsets@, values@)),
{
    let ghost lines = table_lines(*start, offsets@, values@);
    let mut out = String::new();
    let mut k: usize = 0;
    assert(lines.take(0) =~= Seq::<Seq<char>>::empty());
    while k < offsets.len()
        invariant
            start.wf(),
            end.wf(),
            offsets@.len() == values@.len(),
            lines == table_lines(*start, offsets@, values@),
            forall|j: int|
                0 <= j < offsets@.len() ==> 0 <= #[trigger] offsets@[j] <= end.instant()
                    - start.instant(),
            k <= offsets@.len(),
            out@ == joined(lines.take(k as int)),
        decreases offsets@.len() - k,
    {
        proof {
            reveal_strlit("\n");
            reveal_strlit(" -- ");
        }
        let ghost before = out@;
        if k > 0 {
            out.append("\n");
        }
        let ghost sep = out@;
        let at = match start.checked_add_ms(offsets[k]) {
            Some(d) => d,
            None => {
                return out;
            },
        };
        proof {
            lemma_clock_at(at);
        }
        let time = at.time_of_day();
        let text = time.to_text();
        out.append(text.as_str());
        out.append(" -- ");
        out.append(values[k].as_str());
        proof {
            assert(time == clock_at(start.instant() + offsets@[k as int]));
            assert(out@ =~= sep + lines[k as int]);
            let next = lines.take(k + 1);
            assert(next.drop_last() =~= lines.take(k as int));
            if k > 0 {
                assert(sep =~= before + seq!['\n']);
            } else {
                assert(sep =~= Seq::<char>::empty());
            }
            assert(out@ =~= joined(next));
        }
        k = k + 1;
    }
    assert(lines.take(k as int) =~= lines);
    out
}

} // verus!
