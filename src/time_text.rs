//! Clock-time text: checking it while it is typed, and reading it once done.

use crate::clock::TimeOfDay;
use chrono::Timelike;
use vstd::prelude::*;

verus! {

pub open spec fn is_digit(c: char) -> bool {
    '0' <= c && c <= '9'
}

pub open spec fn is_time_char(c: char) -> bool {
    is_digit(c) || c == ':'
}

/// `s` cut at each colon: one segment more than it has colons, the last
/// one empty where `s` ends in a colon.
pub open spec fn segments(s: Seq<char>) -> Seq<Seq<char>>
    decreases s.len(),
{
    if s.len() == 0 {
        seq![Seq::empty()]
    } else if s.last() == ':' {
        segments(s.drop_last()).push(Seq::empty())
    } else {
        let p = segments(s.drop_last());
        p.update(p.len() - 1, p.last().push(s.last()))
    }
}

/// Text that can still grow into `H`, `H:M` or `H:M:S`: only digits and
/// colons; at most three segments; every segment but the last of one or two
/// characters; the last of at most two.
pub open spec fn valid_partial(s: Seq<char>) -> bool {
    let segs = segments(s);
    &&& forall|i: int| 0 <= i < s.len() ==> is_time_char(#[trigger] s[i])
    &&& segs.len() <= 3
    &&& forall|k: int| 0 <= k < segs.len() - 1 ==> 1 <= (#[trigger] segs[k]).len() <= 2
    &&& segs.last().len() <= 2
}

proof fn lemma_segments_nonempty(s: Seq<char>)
    ensures
        segments(s).len() >= 1,
    decreases s.len(),
{
    if s.len() > 0 {
        lemma_segments_nonempty(s.drop_last());
    }
}

/// The segments of a prefix run on in those of the whole text: the same
/// closed segments, and the open one at least as long.
proof fn lemma_segments_prefix(s: Seq<char>, i: int)
    requires
        0 <= i <= s.len(),
    ensures
        segments(s.take(i)).len() <= segments(s).len(),
        forall|k: int|
            0 <= k < segments(s.take(i)).len() - 1 ==> #[trigger] segments(s)[k] == segments(
                s.take(i),
            )[k],
        segments(s)[segments(s.take(i)).len() - 1].len() >= segments(s.take(i)).last().len(),
    decreases s.len(),
{
    lemma_segments_nonempty(s.take(i));
    if i == s.len() {
        assert(s.take(i) =~= s);
    } else {
        let d = s.drop_last();
        lemma_segments_prefix(d, i);
        assert(d.take(i) =~= s.take(i));
        lemma_segments_nonempty(d);
    }
}

/// Whether `time_string` is acceptable as clock-time text being typed.
pub fn is_valid_time(time_string: &String) -> (r: bool)
    ensures
        r == valid_partial(time_string@),
        time_string@.len() == 0 ==> r,
{
    let s = time_string.as_str();
    let n = s.unicode_len();
    let ghost t = s@;
    let mut i: usize = 0;
    let mut run: usize = 0;
    let mut colons: usize = 0;
    assert(t.take(0) =~= Seq::<char>::empty());
    while i < n
        invariant
            n == t.len(),
            t == time_string@,
            t == s@,
            i <= n,
            run <= 2,
            colons <= 2,
            forall|k: int| 0 <= k < i ==> is_time_char(#[trigger] t[k]),
            segments(t.take(i as int)).len() == colons + 1,
            segments(t.take(i as int)).last().len() == run,
            forall|k: int|
                0 <= k < colons ==> 1 <= (#[trigger] segments(t.take(i as int))[k]).len() <= 2,
        decreases n - i,
    {
        let c = s.get_char(i);
        let ghost p = t.take(i as int);
        let ghost q = t.take(i + 1);
        assert(q.drop_last() =~= p);
        proof {
            lemma_segments_nonempty(p);
            lemma_segments_prefix(t, i + 1);
        }
        if c == ':' {
            if run == 0 {
                assert(segments(t)[colons as int] == segments(q)[colons as int]);
                return false;
            }
            if colons == 2 {
                return false;
            }
            colons = colons + 1;
            run = 0;
        } else if '0' <= c && c <= '9' {
            if run == 2 {
                return false;
            }
            run = run + 1;
        } else {
            return false;
        }
        proof {
            assert forall|k: int| 0 <= k < colons implies 1 <= (#[trigger] segments(q)[k]).len()
                <= 2 by {
                if k < colons - 1 || c != ':' {
                    assert(segments(q)[k] == segments(p)[k]);
                }
            }
        }
        i = i + 1;
    }
    assert(t.take(n as int) =~= t);
    true
}

/// What is left of `time_string` once characters are dropped from its end
/// until it is acceptable as clock-time text being typed: its longest such
/// prefix (the empty text always is).
pub fn trim_to_valid(time_string: &String) -> (r: String)
    ensures
        exists|j: int|
            0 <= j <= time_string@.len() && r@ == time_string@.take(j) && valid_partial(r@) && (
            forall|i: int| j < i <= time_string@.len() ==> !valid_partial(#[trigger] time_string@.take(i))),
{
    let s = time_string.as_str();
    let n = s.unicode_len();
    let mut j: usize = n;
    loop
        invariant
            j <= n,
            n == s@.len(),
            s@ == time_string@,
            forall|i: int| j < i <= n ==> !valid_partial(#[trigger] s@.take(i)),
        decreases j,
    {
        let candidate = String::from_str(s.substring_char(0, j));
        assert(candidate@ =~= s@.take(j as int));
        if is_valid_time(&candidate) {
            return candidate;
        }
        assert(j > 0) by {
            assert(s@.take(0) =~= Seq::<char>::empty());
        }
        j = j - 1;
    }
}

/// Index of the last colon in `s`, or -1 where it has none.
pub open spec fn last_colon(s: Seq<char>) -> int
    decreases s.len(),
{
    if s.len() == 0 {
        -1
    } else if s.last() == ':' {
        s.len() - 1
    } else {
        last_colon(s.drop_last())
    }
}

/// A segment left-padded with zeros to width two; a longer one is kept.
pub open spec fn pad2(seg: Seq<char>) -> Seq<char> {
    if seg.len() >= 2 {
        seg
    } else {
        Seq::new((2 - seg.len()) as nat, |i: int| '0') + seg
    }
}

/// `s` with each of its colon-separated segments passed through `pad2`.
pub open spec fn padded(s: Seq<char>) -> Seq<char>
    decreases s.len(),
{
    let k = last_colon(s);
    if 0 <= k < s.len() {
        padded(s.take(k)) + seq![':'] + pad2(s.skip(k + 1))
    } else {
        pad2(s)
    }
}

proof fn lemma_last_colon(s: Seq<char>, j: int)
    requires
        -1 <= j < s.len(),
        j >= 0 ==> s[j] == ':',
        forall|k: int| j < k < s.len() ==> s[k] != ':',
    ensures
        last_colon(s) == j,
    decreases s.len(),
{
    if s.len() > 0 && s.last() != ':' {
        lemma_last_colon(s.drop_last(), j);
    }
}

fn append_padded(out: &mut String, seg: &str)
    ensures
        final(out)@ == old(out)@ + pad2(seg@),
{
    proof {
        reveal_strlit("0");
        reveal_strlit("00");
    }
    let n = seg.unicode_len();
    if n == 0 {
        out.append("00");
    } else if n == 1 {
        out.append("0");
        out.append(seg);
    } else {
        out.append(seg);
    }
    assert(out@ =~= old(out)@ + pad2(seg@));
}

/// `text` with each colon-separated segment left-padded with zeros to width
/// two (`"9:5"` becomes `"09:05"`).
pub fn pad_segments(text: &str) -> (r: String)
    ensures
        r@ == padded(text@),
{
    proof {
        reveal_strlit(":");
    }
    let ghost t = text@;
    let n = text.unicode_len();
    let mut out = String::new();
    let mut start: usize = 0;
    let mut i: usize = 0;
    while i < n
        invariant
            n == t.len(),
            t == text@,
            start <= i <= n,
            forall|k: int| start <= k < i ==> t[k] != ':',
            start > 0 ==> t[start - 1] == ':' && out@ == padded(t.take(start - 1)) + seq![':'],
            start == 0 ==> out@ == Seq::<char>::empty(),
        decreases n - i,
    {
        if text.get_char(i) == ':' {
            let seg = text.substring_char(start, i);
            let ghost before = out@;
            append_padded(&mut out, seg);
            out.append(":");
            proof {
                reveal_strlit(":");
                assert(":"@ =~= seq![':']);
                assert(out@ == before + pad2(seg@) + seq![':']);
                let u = t.take(i as int);
                lemma_last_colon(u, start - 1);
                assert(u.skip(start as int) =~= seg@);
                if start > 0 {
                    assert(u.take(start - 1) =~= t.take(start - 1));
                    assert(padded(u) == padded(u.take(start - 1)) + seq![':'] + pad2(
                        u.skip(start as int),
                    ));
                } else {
                    assert(u =~= seg@);
                    assert(padded(u) == pad2(u));
                }
                assert(out@ =~= padded(u) + seq![':']);
            }
            start = i + 1;
        }
        i = i + 1;
    }
    let seg = text.substring_char(start, n);
    append_padded(&mut out, seg);
    proof {
        lemma_last_colon(t, start - 1);
        assert(t.skip(start as int) =~= seg@);
        if start == 0 {
            assert(t =~= seg@);
        }
        assert(out@ =~= padded(t));
    }
    out
}

/// The hour, minute and second that chrono reads from `text` laid out as
/// `format`, or `None` where it refuses the text.
pub uninterp spec fn parsed_clock(text: Seq<char>, format: Seq<char>) -> Option<(u32, u32, u32)>;

/// Relies on chrono's `NaiveTime::parse_from_str`, read back through
/// `Timelike::hour`, `minute` and `second`, which chrono documents to lie in
/// 0..=23, 0..=59 and 0..=59.
#[verifier::external_body]
fn parse_clock(text: &str, format: &str) -> (r: Option<(u32, u32, u32)>)
    ensures
        r == parsed_clock(text@, format@),
        r matches Some((h, m, s)) ==> h < 24 && m < 60 && s < 60,
{
    match chrono::NaiveTime::parse_from_str(text, format) {
        Ok(t) => Some((t.hour(), t.minute(), t.second())),
        Err(_) => None,
    }
}

pub open spec fn reading(p: Option<(u32, u32, u32)>) -> Option<TimeOfDay> {
    match p {
        Some((h, m, s)) => Some(TimeOfDay { hour: h, minute: m, second: s }),
        None => None,
    }
}

/// The time that completed clock text stands for: its segments padded, then
/// read as `%H:%M:%S`, else `%H:%M`, else `%H`; the first that chrono
/// accepts wins.
pub open spec fn completed_time(s: Seq<char>) -> Option<TimeOfDay> {
    let p = padded(s);
    if parsed_clock(p, "%H:%M:%S"@) is Some {
        reading(parsed_clock(p, "%H:%M:%S"@))
    } else if parsed_clock(p, "%H:%M"@) is Some {
        reading(parsed_clock(p, "%H:%M"@))
    } else {
        reading(parsed_clock(p, "%H"@))
    }
}

fn read_clock(text: &str, format: &str) -> (r: Option<TimeOfDay>)
    ensures
        r == reading(parsed_clock(text@, format@)),
        r matches Some(t) ==> t.wf(),
{
    match parse_clock(text, format) {
        Some((h, m, s)) => Some(TimeOfDay { hour: h, minute: m, second: s }),
        None => None,
    }
}

/// Reads completed clock text such as `"9:5:3"` (09:05:03) or `"14:30"`;
/// `None` where it is no valid time of day.
pub fn naive_time_from_string(time_string: &str) -> (r: Option<TimeOfDay>)
    ensures
        r == completed_time(time_string@),
        r matches Some(t) ==> t.wf(),
{
    let text = pad_segments(time_string);
    let p = text.as_str();
    match read_clock(p, "%H:%M:%S") {
        Some(t) => Some(t),
        None => match read_clock(p, "%H:%M") {
            Some(t) => Some(t),
            None => read_clock(p, "%H"),
        },
    }
}

} // verus!
