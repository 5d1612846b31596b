//! The firmware-managed fan curve of AMD graphics cards.
//!
//! The `fan_curve` file of a card reads like this:
//! ```text
//! OD_FAN_CURVE:
//! 0: 40C 30%
//! 1: 50C 35%
//! ...
//! OD_RANGE:
//! FAN_CURVE(hotspot temp): 25C 100C
//! FAN_CURVE(fan speed): 15% 100%
//! ```
//! A point is set by writing `N TEMP SPEED`, the points are put into effect by
//! writing `c`, and the firmware's own curve comes back by writing `r` and `c`.

use crate::error::HwmonError;
use crate::pwm;
use crate::pwm::percent_to_raw;
use crate::text;
use crate::text::{
    chars_of, contains, decimal_of, join_path, lines, parse_signed, signed_decimal_of, split,
    split_whitespace, str_eq, trim,
};
use vstd::prelude::*;
use vstd::string::*;

verus! {

/// A single point on the fan curve.
#[derive(Debug, Clone, Copy, PartialEq, Eq, Structural)]
pub struct FanCurvePoint {
    /// Point index.
    pub index: u8,
    /// Temperature threshold in degrees Celsius.
    pub temp_c: i32,
    /// Fan speed in percent, 0 to 100.
    pub speed_pct: u8,
}

/// A fan curve with the limits that the card reports for it.
#[derive(Debug, Clone)]
pub struct FanCurve {
    /// Curve points, ordered by index.
    pub points: Vec<FanCurvePoint>,
    /// Lowest and highest temperature that a point may have, in Celsius.
    pub temp_range: Option<(i32, i32)>,
    /// Lowest and highest speed that a point may have, in percent.
    pub speed_range: Option<(u8, u8)>,
}

// ---------------------------------------------------------------------------
// Reading the curve
// ---------------------------------------------------------------------------

/// How many digits and minus signs `s` begins with.
pub open spec fn numeral_len(s: Seq<char>) -> int
    decreases s.len(),
{
    if s.len() > 0 && (text::is_digit(s[0]) || s[0] == '-') {
        1 + numeral_len(s.skip(1))
    } else {
        0
    }
}

/// The number that the digits and minus signs at the start of `s` make up.
pub open spec fn leading_number(s: Seq<char>) -> Option<i32> {
    match text::parsed_signed(s.take(numeral_len(s)), i32::MIN as int, i32::MAX as int) {
        Some(n) => Some(n as i32),
        None => None,
    }
}

/// The numbers that the first two words of `s` begin with, if both do.
pub open spec fn leading_pair(s: Seq<char>) -> Option<(i32, i32)> {
    let w = text::words_of(s);
    if w.len() >= 2 {
        match (leading_number(w[0]), leading_number(w[1])) {
            (Some(a), Some(b)) => Some((a, b)),
            _ => None,
        }
    } else {
        None
    }
}

/// A speed brought into 0 to 100.
pub open spec fn clamped_pct(n: i32) -> u8 {
    if n < 0 {
        0
    } else if n > 100 {
        100
    } else {
        n as u8
    }
}

/// The curve point that a trimmed line of the file states: one digit, a colon,
/// then temperature and speed.
pub open spec fn line_point(t: Seq<char>) -> Option<FanCurvePoint> {
    if t.len() >= 2 && text::is_digit(t[0]) && t[1] == ':' {
        match leading_pair(t.skip(2)) {
            Some((temp, speed)) => Some(
                FanCurvePoint {
                    index: text::digit_value(t[0]) as u8,
                    temp_c: temp,
                    speed_pct: clamped_pct(speed),
                },
            ),
            None => None,
        }
    } else {
        None
    }
}

/// The range that a trimmed line of the file states for `what`: the pair of
/// numbers between its first and second colon.
pub open spec fn line_range(t: Seq<char>, what: Seq<char>) -> Option<(i32, i32)> {
    if text::holds(t, what) && text::pieces(t, ':').len() >= 2 {
        leading_pair(text::pieces(t, ':')[1])
    } else {
        None
    }
}

/// The points that the lines state, in the order of the lines.
pub open spec fn stated_points(ls: Seq<Seq<char>>) -> Seq<FanCurvePoint>
    decreases ls.len(),
{
    if ls.len() == 0 {
        Seq::empty()
    } else {
        let before = stated_points(ls.drop_last());
        match line_point(text::trimmed(ls.last())) {
            Some(p) => before.push(p),
            None => before,
        }
    }
}

/// The range that the lines state for `what`: that of the last line that states one.
pub open spec fn stated_range(ls: Seq<Seq<char>>, what: Seq<char>) -> Option<(i32, i32)>
    decreases ls.len(),
{
    if ls.len() == 0 {
        None
    } else {
        match line_range(text::trimmed(ls.last()), what) {
            Some(r) => Some(r),
            None => stated_range(ls.drop_last(), what),
        }
    }
}

/// The points with an index below `n`: by index, and among equal indices in the
/// order in which they stand in `pts`.
pub open spec fn by_index(pts: Seq<FanCurvePoint>, n: nat) -> Seq<FanCurvePoint>
    decreases n,
{
    if n == 0 {
        Seq::empty()
    } else {
        by_index(pts, (n - 1) as nat) + pts.filter(|p: FanCurvePoint| p.index == n - 1)
    }
}

/// The points of a `fan_curve` file, ordered by index.
pub open spec fn curve_points(content: Seq<char>) -> Seq<FanCurvePoint> {
    by_index(stated_points(text::lines_of(content)), 256)
}

/// The temperature range of a `fan_curve` file.
pub open spec fn curve_temp_range(content: Seq<char>) -> Option<(i32, i32)> {
    stated_range(text::lines_of(content), "hotspot temp"@)
}

/// The speed range of a `fan_curve` file, each bound kept to its low eight bits.
pub open spec fn curve_speed_range(content: Seq<char>) -> Option<(u8, u8)> {
    match stated_range(text::lines_of(content), "fan speed"@) {
        Some((lo, hi)) => Some((lo as u8, hi as u8)),
        None => None,
    }
}

/// The number that a word begins with.
fn parse_value_with_suffix(s: &str) -> (r: Option<i32>)
    ensures
        r == leading_number(s@),
{
    let v: Vec<char> = chars_of(s);
    let mut n: usize = 0;
    assert(s@.skip(0) =~= s@);
    while n < v.len() && (('0' <= v[n] && v[n] <= '9') || v[n] == '-')
        invariant
            v@ == s@,
            n <= v.len(),
            numeral_len(s@) == n + numeral_len(s@.skip(n as int)),
        decreases v.len() - n,
    {
        assert(s@.skip(n as int).skip(1) =~= s@.skip(n + 1));
        n += 1;
    }
    let digits: &str = s.substring_char(0, n);
    match parse_signed(digits, i32::MIN as i64, i32::MAX as i64) {
        Some(x) => Some(x as i32),
        None => None,
    }
}

/// The numbers that the first two words begin with.
fn parse_pair(s: &str) -> (r: Option<(i32, i32)>)
    ensures
        r == leading_pair(s@),
{
    let parts: Vec<&str> = split_whitespace(s);
    assert(text::texts(parts@).len() == parts@.len());
    if parts.len() >= 2 {
        assert(text::words_of(s@)[0] == parts@[0]@);
        assert(text::words_of(s@)[1] == parts@[1]@);
        match (parse_value_with_suffix(parts[0]), parse_value_with_suffix(parts[1])) {
            (Some(a), Some(b)) => Some((a, b)),
            _ => None,
        }
    } else {
        None
    }
}

fn parse_point(t: &str) -> (r: Option<FanCurvePoint>)
    ensures
        r == line_point(t@),
{
    let v: Vec<char> = chars_of(t);
    if v.len() >= 2 && '0' <= v[0] && v[0] <= '9' && v[1] == ':' {
        let index: u8 = (v[0] as u32 - '0' as u32) as u8;
        match parse_pair(t.substring_char(2, v.len())) {
            Some((temp_c, speed)) => {
                let speed_pct: u8 = if speed < 0 {
                    0
                } else if speed > 100 {
                    100
                } else {
                    speed as u8
                };
                Some(FanCurvePoint { index, temp_c, speed_pct })
            },
            None => None,
        }
    } else {
        None
    }
}

fn parse_range(t: &str, what: &str) -> (r: Option<(i32, i32)>)
    ensures
        r == line_range(t@, what@),
{
    if contains(t, what) {
        let parts: Vec<&str> = split(t, ':');
        assert(text::texts(parts@).len() == parts@.len());
        if parts.len() >= 2 {
            assert(text::pieces(t@, ':')[1] == parts@[1]@);
            return parse_pair(parts[1]);
        }
    }
    None
}

proof fn lemma_stated_index(ls: Seq<Seq<char>>)
    ensures
        forall|i: int|
            0 <= i < stated_points(ls).len() ==> #[trigger] stated_points(ls)[i].index < 10,
    decreases ls.len(),
{
    if ls.len() > 0 {
        let before = stated_points(ls.drop_last());
        lemma_stated_index(ls.drop_last());
        assert forall|i: int| 0 <= i < stated_points(ls).len() implies #[trigger] stated_points(
            ls,
        )[i].index < 10 by {
            if i < before.len() {
                assert(stated_points(ls)[i] == before[i]);
                assert(before[i].index < 10);
            }
        }
    }
}

/// Stable order by index of points whose indices are single digits.
fn sorted_points(pts: &Vec<FanCurvePoint>) -> (r: Vec<FanCurvePoint>)
    requires
        forall|i: int| 0 <= i < pts@.len() ==> #[trigger] pts@[i].index < 10,
    ensures
        r@ == by_index(pts@, 256),
{
    let mut out: Vec<FanCurvePoint> = Vec::new();
    let mut index: u8 = 0;
    while index < 10
        invariant
            index <= 10,
            out@ == by_index(pts@, index as nat),
        decreases 10 - index,
    {
        let ghost pred = |p: FanCurvePoint| p.index == index as int;
        let ghost start = out@;
        let mut i: usize = 0;
        assert(pts@.take(0).filter(pred) =~= Seq::<FanCurvePoint>::empty()) by {
            reveal(Seq::filter);
        }
        assert(start + pts@.take(0).filter(pred) =~= start);
        while i < pts.len()
            invariant
                i <= pts.len(),
                pred == |p: FanCurvePoint| p.index == index as int,
                out@ == start + pts@.take(i as int).filter(pred),
            decreases pts.len() - i,
        {
            proof {
                assert(pts@.take(i + 1).drop_last() =~= pts@.take(i as int));
                reveal(Seq::filter);
            }
            if pts[i].index == index {
                out.push(pts[i]);
            }
            assert(out@ =~= start + pts@.take(i + 1).filter(pred));
            i += 1;
        }
        assert(pts@.take(i as int) =~= pts@);
        assert(pred =~= |p: FanCurvePoint| p.index == (index + 1) - 1);
        index += 1;
    }
    proof {
        lemma_by_index_stops(pts@, 10, 256);
    }
    out
}

proof fn lemma_by_index_stops(pts: Seq<FanCurvePoint>, from: nat, to: nat)
    requires
        from <= to,
        forall|i: int| 0 <= i < pts.len() ==> #[trigger] pts[i].index < from,
    ensures
        by_index(pts, to) == by_index(pts, from),
    decreases to - from,
{
    if from < to {
        lemma_by_index_stops(pts, from, (to - 1) as nat);
        let pred = |p: FanCurvePoint| p.index == to - 1;
        lemma_filter_none(pts, pred);
        assert(by_index(pts, to) =~= by_index(pts, (to - 1) as nat));
    }
}

proof fn lemma_filter_none(pts: Seq<FanCurvePoint>, pred: spec_fn(FanCurvePoint) -> bool)
    requires
        forall|i: int| 0 <= i < pts.len() ==> !pred(#[trigger] pts[i]),
    ensures
        pts.filter(pred) == Seq::<FanCurvePoint>::empty(),
    decreases pts.len(),
{
    reveal(Seq::filter);
    if pts.len() > 0 {
        lemma_filter_none(pts.drop_last(), pred);
    }
}

/// Parses what a `fan_curve` file holds.
///
/// A file without a curve point is an error.
pub fn parse_fan_curve(content: &str) -> (r: Result<FanCurve, HwmonError>)
    ensures
        match r {
            Ok(curve) => {
                &&& curve.points@ == curve_points(content@)
                &&& curve.points@.len() > 0
                &&& curve.temp_range == curve_temp_range(content@)
                &&& curve.speed_range == curve_speed_range(content@)
            },
            Err(e) => {
                &&& stated_points(text::lines_of(content@)).len() == 0
                &&& e.is_read_error(
                    "<fan_curve>"@,
                    "no curve points found in fan_curve output"@,
                )
            },
        },
{
    let all: Vec<&str> = lines(content);
    let ghost ls = text::lines_of(content@);
    assert(text::texts(all@).len() == all@.len());
    let mut points: Vec<FanCurvePoint> = Vec::new();
    let mut temp_range: Option<(i32, i32)> = None;
    let mut speed: Option<(i32, i32)> = None;
    let mut i: usize = 0;
    while i < all.len()
        invariant
            i <= all.len(),
            ls == text::texts(all@),
            points@ == stated_points(ls.take(i as int)),
            temp_range == stated_range(ls.take(i as int), "hotspot temp"@),
            speed == stated_range(ls.take(i as int), "fan speed"@),
        decreases all.len() - i,
    {
        proof {
            assert(ls.take(i + 1).drop_last() =~= ls.take(i as int));
            assert(ls.take(i + 1).last() == all@[i as int]@);
        }
        let t: &str = trim(all[i]);
        if let Some(p) = parse_point(t) {
            points.push(p);
        }
        if let Some(range) = parse_range(t, "hotspot temp") {
            temp_range = Some(range);
        }
        if let Some(range) = parse_range(t, "fan speed") {
            speed = Some(range);
        }
        i += 1;
    }
    proof {
        assert(ls.take(i as int) =~= ls);
        lemma_stated_index(ls);
    }
    if points.len() == 0 {
        return Err(
            HwmonError::ReadError {
                path: "<fan_curve>".to_owned(),
                message: "no curve points found in fan_curve output".to_owned(),
            },
        );
    }
    let speed_range: Option<(u8, u8)> = match speed {
        Some((lo, hi)) => Some((lo as u8, hi as u8)),
        None => None,
    };
    proof {
        ordering_keeps_every_point(points@, 256);
    }
    let points: Vec<FanCurvePoint> = sorted_points(&points);
    Ok(FanCurve { points, temp_range, speed_range })
}

proof fn lemma_by_index_sorted(pts: Seq<FanCurvePoint>, n: nat)
    ensures
        forall|i: int, j: int|
            0 <= i <= j < by_index(pts, n).len() ==> #[trigger] by_index(pts, n)[i].index
                <= #[trigger] by_index(pts, n)[j].index,
        forall|i: int| 0 <= i < by_index(pts, n).len() ==> #[trigger] by_index(pts, n)[i].index < n,
    decreases n,
{
    if n > 0 {
        lemma_by_index_sorted(pts, (n - 1) as nat);
        let pred = |p: FanCurvePoint| p.index == n - 1;
        broadcast use vstd::seq_lib::group_filter_ensures;
        let a = by_index(pts, (n - 1) as nat);
        let b = pts.filter(pred);
        assert(by_index(pts, n) == a + b);
        assert forall|i: int| 0 <= i < b.len() implies #[trigger] b[i].index == n - 1 by {
            assert(pred(b[i]));
        }
    }
}

/// Ordering the points of a curve keeps every point, as often as it was there,
/// and leaves them with their indices going up.
pub proof fn ordering_keeps_every_point(pts: Seq<FanCurvePoint>, n: nat)
    requires
        forall|i: int| 0 <= i < pts.len() ==> #[trigger] pts[i].index < n,
    ensures
        by_index(pts, n).to_multiset() =~= pts.to_multiset(),
        by_index(pts, n).len() == pts.len(),
        forall|i: int, j: int|
            0 <= i <= j < by_index(pts, n).len() ==> #[trigger] by_index(pts, n)[i].index
                <= #[trigger] by_index(pts, n)[j].index,
{
    broadcast use vstd::seq_lib::group_to_multiset_ensures;
    lemma_by_index_sorted(pts, n);
    lemma_by_index_count(pts, n);
    assert(by_index(pts, n).to_multiset() =~= pts.to_multiset()) by {
        assert forall|p: FanCurvePoint|
            #[trigger] by_index(pts, n).to_multiset().count(p) == pts.to_multiset().count(p) by {
            if pts.to_multiset().count(p) > 0 {
                assert(pts.contains(p));
            }
        }
    }
    assert(by_index(pts, n).to_multiset().len() == by_index(pts, n).len());
    assert(pts.to_multiset().len() == pts.len());
}

proof fn lemma_by_index_count(pts: Seq<FanCurvePoint>, n: nat)
    ensures
        forall|p: FanCurvePoint|
            #[trigger] by_index(pts, n).to_multiset().count(p) == (if p.index < n {
                pts.to_multiset().count(p)
            } else {
                0
            }),
    decreases n,
{
    broadcast use vstd::seq_lib::group_to_multiset_ensures;
    if n > 0 {
        let m = (n - 1) as nat;
        lemma_by_index_count(pts, m);
        let pred = |p: FanCurvePoint| p.index == n - 1;
        lemma_filter_count(pts, pred);
        vstd::seq_lib::lemma_multiset_commutative(by_index(pts, m), pts.filter(pred));
    }
}

proof fn lemma_filter_count(pts: Seq<FanCurvePoint>, pred: spec_fn(FanCurvePoint) -> bool)
    ensures
        forall|p: FanCurvePoint|
            #[trigger] pts.filter(pred).to_multiset().count(p) == (if pred(p) {
                pts.to_multiset().count(p)
            } else {
                0
            }),
    decreases pts.len(),
{
    broadcast use vstd::seq_lib::group_to_multiset_ensures;
    reveal(Seq::filter);
    if pts.len() > 0 {
        let t = pts.drop_last();
        lemma_filter_count(t, pred);
        assert(pts =~= t.push(pts.last()));
        assert(pts.to_multiset() =~= t.to_multiset().insert(pts.last()));
        if pred(pts.last()) {
            assert(pts.filter(pred) =~= t.filter(pred).push(pts.last()));
            assert(pts.filter(pred).to_multiset() =~= t.filter(pred).to_multiset().insert(
                pts.last(),
            ));
        } else {
            assert(pts.filter(pred) =~= t.filter(pred));
        }
    } else {
        assert(pts.filter(pred) =~= pts);
    }
}

// ---------------------------------------------------------------------------
// Writing
// ---------------------------------------------------------------------------

/// A write to a sysfs file: which file, what was written, and why the write was
/// refused, if it was.
pub struct WriteAttempt {
    pub path: Seq<char>,
    pub content: Seq<char>,
    pub failure: Option<Seq<char>>,
}

/// A writer of sysfs files. The kernel acts on each write by itself, so what
/// matters is every write and the order of the writes.
pub trait FanCurveWriter {
    /// Every write that was tried so far, the latest last. This stands in contracts only: a
    /// writer outside of this library need not define it.
    closed spec fn attempts(&self) -> Seq<WriteAttempt> {
        arbitrary()
    }

    /// Tries to write `content` to the file at `path`.
    fn write(&mut self, path: &str, content: &str) -> (r: Result<(), HwmonError>)
        ensures
            final(self).attempts() == old(self).attempts().push(
                WriteAttempt {
                    path: path@,
                    content: content@,
                    failure: match r {
                        Ok(_) => None,
                        Err(e) => Some(e.message_text()),
                    },
                },
            ),
    ;
}

/// The accepted write of `content` to `path`.
pub open spec fn accepted(path: Seq<char>, content: Seq<char>) -> WriteAttempt {
    WriteAttempt { path, content, failure: None }
}

/// Whether `a` is a refused write of `content` to `path`.
pub open spec fn refused(a: WriteAttempt, path: Seq<char>, content: Seq<char>) -> bool {
    a.path == path && a.content == content && a.failure is Some
}

/// Whether `log` is what a writer that had tried `before` shows after it was given
/// `contents` for `path`, one after the other, up to and with the first refusal,
/// which is write number `stop` (as many as there are contents if none was refused).
pub open spec fn wrote_until(
    before: Seq<WriteAttempt>,
    log: Seq<WriteAttempt>,
    path: Seq<char>,
    contents: Seq<Seq<char>>,
    stop: int,
) -> bool {
    &&& 0 <= stop <= contents.len()
    &&& log.len() == before.len() + stop + (if stop < contents.len() {
        1int
    } else {
        0
    })
    &&& log.take(before.len() as int) == before
    &&& forall|i: int|
        0 <= i < stop ==> #[trigger] log[before.len() + i] == accepted(path, contents[i])
    &&& stop < contents.len() ==> refused(log[before.len() + stop], path, contents[stop])
}

/// What sets one curve point: `INDEX TEMP SPEED` and a line feed.
pub open spec fn point_command(p: FanCurvePoint) -> Seq<char> {
    text::decimal(p.index as nat) + seq![' '] + text::signed_decimal(p.temp_c as int) + seq![' '] + text::decimal(
        p.speed_pct as nat,
    ) + seq!['\n']
}

/// What sets a whole curve: each point, then the commit.
pub open spec fn curve_commands(points: Seq<FanCurvePoint>) -> Seq<Seq<char>> {
    Seq::new(points.len(), |i: int| point_command(points[i])).push("c\n"@)
}

/// Why a curve was not written when the write number `stop` was refused.
pub open spec fn curve_failure(points: Seq<FanCurvePoint>, stop: int) -> Seq<char> {
    if stop < points.len() {
        let p = points[stop];
        "failed to write curve point "@ + text::decimal(p.index as nat) + " ("@ + text::signed_decimal(
            p.temp_c as int,
        ) + "°C "@ + text::decimal(p.speed_pct as nat) + "%)"@
    } else {
        "failed to commit fan curve"@
    }
}

/// Whether `log` and `r` are what writing the curve `points` to `path` shows and
/// returns, for a writer that had tried `before`: every command in order up to the
/// first refusal, and an error that says which command was refused.
pub open spec fn curve_written(
    before: Seq<WriteAttempt>,
    log: Seq<WriteAttempt>,
    path: Seq<char>,
    points: Seq<FanCurvePoint>,
    r: Result<(), HwmonError>,
) -> bool {
    let commands = curve_commands(points);
    match r {
        Ok(_) => wrote_until(before, log, path, commands, commands.len() as int),
        Err(e) => exists|stop: int|
            0 <= stop < commands.len() && #[trigger] wrote_until(before, log, path, commands, stop)
                && e.is_write_error(path, curve_failure(points, stop)),
    }
}

fn format_point(p: &FanCurvePoint) -> (s: String)
    ensures
        s@ == point_command(*p),
{
    let mut s: String = decimal_of(p.index as u64);
    s.push(' ');
    s.append(signed_decimal_of(p.temp_c as i64).as_str());
    s.push(' ');
    s.append(decimal_of(p.speed_pct as u64).as_str());
    s.push('\n');
    assert(s@ =~= point_command(*p));
    s
}

fn describe_point_failure(p: &FanCurvePoint) -> (s: String)
    ensures
        s@ == curve_failure(seq![*p], 0),
{
    let mut s: String = "failed to write curve point ".to_owned();
    s.append(decimal_of(p.index as u64).as_str());
    s.append(" (");
    s.append(signed_decimal_of(p.temp_c as i64).as_str());
    s.append("°C ");
    s.append(decimal_of(p.speed_pct as u64).as_str());
    s.append("%)");
    s
}

/// Writes a fan curve and commits it: each point by itself, in order, then `c`.
/// The first refused write ends it with an error.
pub fn write_fan_curve_with<W: FanCurveWriter>(
    writer: &mut W,
    fan_curve_path: &str,
    points: &Vec<FanCurvePoint>,
) -> (r: Result<(), HwmonError>)
    ensures
        curve_written(
            old(writer).attempts(),
            final(writer).attempts(),
            fan_curve_path@,
            points@,
            r,
        ),
{
    let ghost before = writer.attempts();
    let ghost commands = curve_commands(points@);
    let mut i: usize = 0;
    while i < points.len()
        invariant
            i <= points.len(),
            before == old(writer).attempts(),
            commands == curve_commands(points@),
            writer.attempts().len() == before.len() + i,
            writer.attempts().take(before.len() as int) == before,
            forall|k: int|
                0 <= k < i ==> #[trigger] writer.attempts()[before.len() + k] == accepted(
                    fan_curve_path@,
                    commands[k],
                ),
        decreases points.len() - i,
    {
        let ghost log = writer.attempts();
        let cmd: String = format_point(&points[i]);
        let written: Result<(), HwmonError> = writer.write(fan_curve_path, cmd.as_str());
        proof {
            assert(commands[i as int] == cmd@);
            assert(writer.attempts().take(before.len() as int) =~= before) by {
                assert(log.take(before.len() as int) == before);
            }
            assert forall|k: int| 0 <= k < i implies #[trigger] writer.attempts()[before.len() + k]
                == accepted(fan_curve_path@, commands[k]) by {
                assert(log[before.len() + k] == accepted(fan_curve_path@, commands[k]));
            }
        }
        if written.is_err() {
            assert(curve_failure(points@, i as int) == curve_failure(seq![points@[i as int]], 0));
            assert(wrote_until(before, writer.attempts(), fan_curve_path@, commands, i as int));
            return Err(
                HwmonError::WriteError {
                    path: fan_curve_path.to_owned(),
                    message: describe_point_failure(&points[i]),
                },
            );
        }
        i += 1;
    }
    let ghost log = writer.attempts();
    let written: Result<(), HwmonError> = writer.write(fan_curve_path, "c\n");
    proof {
        assert(commands[i as int] == "c\n"@);
        assert(writer.attempts().take(before.len() as int) =~= before) by {
            assert(log.take(before.len() as int) == before);
        }
        assert forall|k: int| 0 <= k < i implies #[trigger] writer.attempts()[before.len() + k]
            == accepted(fan_curve_path@, commands[k]) by {
            assert(log[before.len() + k] == accepted(fan_curve_path@, commands[k]));
        }
    }
    if written.is_err() {
        assert(wrote_until(before, writer.attempts(), fan_curve_path@, commands, i as int));
        return Err(
            HwmonError::WriteError {
                path: fan_curve_path.to_owned(),
                message: "failed to commit fan curve".to_owned(),
            },
        );
    }
    Ok(())
}

/// Whether `log` and `r` are what setting `path` to `value` and committing it
/// shows and returns: both writes, or those up to the first refusal, and then an
/// error that gives the reason of the refusal after `no_write` or `no_commit`.
pub open spec fn value_committed(
    before: Seq<WriteAttempt>,
    log: Seq<WriteAttempt>,
    path: Seq<char>,
    value: Seq<char>,
    no_write: Seq<char>,
    no_commit: Seq<char>,
    r: Result<(), HwmonError>,
) -> bool {
    match r {
        Ok(_) => log == before.push(accepted(path, value)).push(accepted(path, "c\n"@)),
        Err(e) => {
            ||| {
                &&& log.len() == before.len() + 1
                &&& log.drop_last() == before
                &&& refused(log.last(), path, value)
                &&& e.is_write_error(path, no_write + log.last().failure->0)
            }
            ||| {
                &&& log.len() == before.len() + 2
                &&& log.drop_last() == before.push(accepted(path, value))
                &&& refused(log.last(), path, "c\n"@)
                &&& e.is_write_error(path, no_commit + log.last().failure->0)
            }
        },
    }
}

/// Writes `value`, then the commit.
fn write_and_commit<W: FanCurveWriter>(
    writer: &mut W,
    path: &str,
    value: &str,
    no_write: &str,
    no_commit: &str,
) -> (r: Result<(), HwmonError>)
    ensures
        value_committed(
            old(writer).attempts(),
            final(writer).attempts(),
            path@,
            value@,
            no_write@,
            no_commit@,
            r,
        ),
{
    let ghost before = writer.attempts();
    if let Err(e) = writer.write(path, value) {
        assert(writer.attempts().drop_last() =~= before);
        let mut message: String = no_write.to_owned();
        message.append(e.message());
        return Err(HwmonError::WriteError { path: path.to_owned(), message });
    }
    if let Err(e) = writer.write(path, "c\n") {
        assert(writer.attempts().drop_last() =~= before.push(accepted(path@, value@)));
        let mut message: String = no_commit.to_owned();
        message.append(e.message());
        return Err(HwmonError::WriteError { path: path.to_owned(), message });
    }
    Ok(())
}

// ---------------------------------------------------------------------------
// Zero-RPM mode
// ---------------------------------------------------------------------------

/// Whether a line of a `fan_zero_rpm_enable` file is the header of its value.
pub open spec fn is_zero_rpm_header(line: Seq<char>) -> bool {
    text::holds(line, "FAN_ZERO_RPM_ENABLE:"@) && !text::holds(line, "OD_RANGE"@)
}

/// What the first line below the header says: the first line that is no header,
/// where a header was seen before it.
pub open spec fn zero_rpm_value(ls: Seq<Seq<char>>, seen: bool) -> Option<Seq<char>>
    decreases ls.len(),
{
    if ls.len() == 0 {
        None
    } else if is_zero_rpm_header(ls[0]) {
        zero_rpm_value(ls.skip(1), true)
    } else if seen {
        Some(text::trimmed(ls[0]))
    } else {
        zero_rpm_value(ls.skip(1), false)
    }
}

/// Whether a `fan_zero_rpm_enable` file says that zero-RPM mode is off.
pub open spec fn zero_rpm_off(content: Seq<char>) -> bool {
    zero_rpm_value(text::lines_of(content), false) == Some("0"@)
}

/// Whether a `fan_zero_rpm_enable` file says that zero-RPM mode is off. The file
/// reads like this:
/// ```text
/// FAN_ZERO_RPM_ENABLE:
/// 0
/// OD_RANGE:
/// ZERO_RPM_ENABLE: 0 1
/// ```
pub fn zero_rpm_disabled(content: &str) -> (r: bool)
    ensures
        r == zero_rpm_off(content@),
{
    let all: Vec<&str> = lines(content);
    let ghost ls = text::lines_of(content@);
    assert(text::texts(all@).len() == all@.len());
    assert(ls.skip(0) =~= ls);
    let mut found_header: bool = false;
    let mut i: usize = 0;
    while i < all.len()
        invariant
            i <= all.len(),
            ls == text::texts(all@),
            ls == text::lines_of(content@),
            zero_rpm_value(ls, false) == zero_rpm_value(ls.skip(i as int), found_header),
        decreases all.len() - i,
    {
        let line: &str = all[i];
        assert(ls.skip(i as int)[0] == line@);
        assert(ls.skip(i as int).skip(1) =~= ls.skip(i + 1));
        if contains(line, "FAN_ZERO_RPM_ENABLE:") && !contains(line, "OD_RANGE") {
            found_header = true;
        } else if found_header {
            return str_eq(trim(line), "0");
        }
        i += 1;
    }
    false
}

/// Whether `log` and `r` are what turning zero-RPM mode off shows and returns,
/// where reading the file had given `content`: nothing is written if the mode is
/// off already.
pub open spec fn zero_rpm_turned_off(
    before: Seq<WriteAttempt>,
    log: Seq<WriteAttempt>,
    path: Seq<char>,
    content: Option<Seq<char>>,
    r: Result<(), HwmonError>,
) -> bool {
    if content is Some && zero_rpm_off(content->0) {
        log == before && r is Ok
    } else {
        value_committed(
            before,
            log,
            path,
            "0\n"@,
            "failed to disable fan zero-RPM: "@,
            "failed to commit zero-RPM disable: "@,
            r,
        )
    }
}

/// Turns zero-RPM mode off, so that the fan spins when a curve is applied.
///
/// `content` is what reading the file gave, `None` if it could not be read. A file
/// that says the mode is off already is not written again: each write makes the
/// firmware stutter under load.
pub fn disable_zero_rpm<W: FanCurveWriter>(
    writer: &mut W,
    zero_rpm_path: &str,
    content: Option<&str>,
) -> (r: Result<(), HwmonError>)
    ensures
        zero_rpm_turned_off(
            old(writer).attempts(),
            final(writer).attempts(),
            zero_rpm_path@,
            text::opt_str(content),
            r,
        ),
{
    if let Some(c) = content {
        if zero_rpm_disabled(c) {
            return Ok(());
        }
    }
    write_and_commit(
        writer,
        zero_rpm_path,
        "0\n",
        "failed to disable fan zero-RPM: ",
        "failed to commit zero-RPM disable: ",
    )
}

/// Whether `log` and `r` are what turning zero-RPM mode on shows and returns.
pub open spec fn zero_rpm_turned_on(
    before: Seq<WriteAttempt>,
    log: Seq<WriteAttempt>,
    path: Seq<char>,
    r: Result<(), HwmonError>,
) -> bool {
    value_committed(
        before,
        log,
        path,
        "1\n"@,
        "failed to enable fan zero-RPM: "@,
        "failed to commit zero-RPM enable: "@,
        r,
    )
}

/// Turns zero-RPM mode on again: the firmware may stop the fan at idle.
pub fn enable_zero_rpm<W: FanCurveWriter>(writer: &mut W, zero_rpm_path: &str) -> (r: Result<
    (),
    HwmonError,
>)
    ensures
        zero_rpm_turned_on(
            old(writer).attempts(),
            final(writer).attempts(),
            zero_rpm_path@,
            r,
        ),
{
    write_and_commit(
        writer,
        zero_rpm_path,
        "1\n",
        "failed to enable fan zero-RPM: ",
        "failed to commit zero-RPM enable: ",
    )
}

// ---------------------------------------------------------------------------
// A flat curve
// ---------------------------------------------------------------------------

/// The limits for the points of a flat curve: those that the `fan_curve` file
/// states, where it holds a curve; 25 to 100 degrees and 15 to 100 percent for
/// what it does not state.
pub open spec fn curve_limits(content: Option<Seq<char>>) -> ((i32, i32), (u8, u8)) {
    if content is Some && stated_points(text::lines_of(content->0)).len() > 0 {
        (
            match curve_temp_range(content->0) {
                Some(t) => t,
                None => (25, 100),
            },
            match curve_speed_range(content->0) {
                Some(v) => v,
                None => (15, 100),
            },
        )
    } else {
        ((25, 100), (15, 100))
    }
}

/// A speed raised to the lower limit, then lowered to the upper one.
pub open spec fn limited_speed(speed: u8, range: (u8, u8)) -> u8 {
    let raised = if speed < range.0 {
        range.0
    } else {
        speed
    };
    if raised > range.1 {
        range.1
    } else {
        raised
    }
}

/// The temperature of point `i` of `n` that spread evenly over a range.
pub open spec fn spread_temp(range: (i32, i32), i: int, n: int) -> int {
    let steps = if n > 2 {
        n - 1
    } else {
        1
    };
    range.0 + (i * (range.1 - range.0)) / steps
}

/// A flat curve of `n` points: one speed, the temperatures spread over the range.
pub open spec fn flat_curve(
    temps: (i32, i32),
    speeds: (u8, u8),
    speed: u8,
    n: u8,
) -> Seq<FanCurvePoint> {
    Seq::new(
        n as nat,
        |i: int|
            FanCurvePoint {
                index: i as u8,
                temp_c: spread_temp(temps, i, n as int) as i32,
                speed_pct: limited_speed(speed, speeds),
            },
    )
}

proof fn lemma_spread(range: (i32, i32), i: int, n: int)
    requires
        range.0 <= range.1,
        0 <= i < n,
    ensures
        range.0 <= spread_temp(range, i, n) <= range.1,
        i == 0 ==> spread_temp(range, i, n) == range.0,
        i == n - 1 && n >= 2 ==> spread_temp(range, i, n) == range.1,
{
    let d = range.1 - range.0;
    let steps = if n > 2 {
        n - 1
    } else {
        1
    };
    assert(0 <= (i * d) / steps <= d) by (nonlinear_arith)
        requires
            0 <= i <= steps,
            steps >= 1,
            d >= 0,
    ;
    assert(i == 0 ==> (i * d) / steps == 0) by (nonlinear_arith)
        requires
            steps >= 1,
    ;
    if i == n - 1 && n >= 2 {
        assert((i * d) / steps == d) by (nonlinear_arith)
            requires
                i == steps,
                steps >= 1,
        ;
    }
}

/// A flat curve stays inside the limits of the card: its points are numbered from
/// zero, every temperature lies in the range, none is below the one before it, the
/// first is the lower end and, of two or more points, the last is the upper end;
/// every point has the same speed, inside the speed range.
pub proof fn flat_curve_within_limits(temps: (i32, i32), speeds: (u8, u8), speed: u8, n: u8)
    requires
        temps.0 <= temps.1,
        speeds.0 <= speeds.1,
    ensures
        ({
            let c = flat_curve(temps, speeds, speed, n);
            &&& c.len() == n
            &&& forall|i: int|
                #![trigger c[i]]
                0 <= i < n ==> c[i].index == i && temps.0 <= c[i].temp_c <= temps.1 && speeds.0
                    <= c[i].speed_pct <= speeds.1 && c[i].speed_pct == c[0].speed_pct
            &&& forall|i: int, j: int|
                0 <= i <= j < n ==> #[trigger] c[i].temp_c <= #[trigger] c[j].temp_c
            &&& n >= 1 ==> c[0].temp_c == temps.0
            &&& n >= 2 ==> c[n - 1].temp_c == temps.1
            &&& speeds.0 <= speed <= speeds.1 && n >= 1 ==> c[0].speed_pct == speed
        }),
{
    let c = flat_curve(temps, speeds, speed, n);
    let d = temps.1 - temps.0;
    let steps: int = if n > 2 {
        n - 1
    } else {
        1
    };
    assert forall|i: int| 0 <= i < n implies {
        &&& temps.0 <= spread_temp(temps, i, n as int) <= temps.1
        &&& #[trigger] c[i].temp_c == spread_temp(temps, i, n as int)
    } by {
        lemma_spread(temps, i, n as int);
    }
    if n >= 1 {
        lemma_spread(temps, 0, n as int);
        lemma_spread(temps, n - 1, n as int);
    }
    assert forall|i: int, j: int| 0 <= i <= j < n implies #[trigger] c[i].temp_c
        <= #[trigger] c[j].temp_c by {
        assert((i * d) / steps <= (j * d) / steps) by (nonlinear_arith)
            requires
                0 <= i <= j,
                d >= 0,
                steps >= 1,
        ;
    }
}

/// Whether `log` and `r` are what setting a flat curve shows and returns: first
/// zero-RPM mode is turned off, whatever comes of that, then the curve is written.
pub open spec fn static_speed_set(
    before: Seq<WriteAttempt>,
    log: Seq<WriteAttempt>,
    curve_path: Seq<char>,
    zero_rpm: Option<(Seq<char>, Option<Seq<char>>)>,
    points: Seq<FanCurvePoint>,
    r: Result<(), HwmonError>,
) -> bool {
    exists|mid: Seq<WriteAttempt>, z: Result<(), HwmonError>|
        #![trigger curve_written(mid, log, curve_path, points, r), after_zero_rpm(before, mid, zero_rpm, z)]
        after_zero_rpm(before, mid, zero_rpm, z) && curve_written(mid, log, curve_path, points, r)
}

/// Whether `log` and `z` are what the optional step of turning zero-RPM mode off
/// shows and returns.
pub open spec fn after_zero_rpm(
    before: Seq<WriteAttempt>,
    log: Seq<WriteAttempt>,
    zero_rpm: Option<(Seq<char>, Option<Seq<char>>)>,
    z: Result<(), HwmonError>,
) -> bool {
    match zero_rpm {
        Some((path, content)) => zero_rpm_turned_off(before, log, path, content, z),
        None => log == before && z is Ok,
    }
}

/// The path and the content of an optional zero-RPM file.
pub open spec fn zero_rpm_text(z: Option<(&str, Option<&str>)>) -> Option<
    (Seq<char>, Option<Seq<char>>),
> {
    match z {
        Some((path, content)) => Some((path@, text::opt_str(content))),
        None => None,
    }
}

/// The points that give a flat curve within the limits that `curve_content`, what
/// reading the `fan_curve` file gave, states.
pub fn static_curve(curve_content: Option<&str>, speed_pct: u8, num_points: u8) -> (points: Vec<
    FanCurvePoint,
>)
    requires
        ({
            let temps = curve_limits(text::opt_str(curve_content)).0;
            num_points > 0 ==> temps.0 <= temps.1
        }),
    ensures
        points@ == flat_curve(
            curve_limits(text::opt_str(curve_content)).0,
            curve_limits(text::opt_str(curve_content)).1,
            speed_pct,
            num_points,
        ),
{
    let mut temps: (i32, i32) = (25, 100);
    let mut speeds: (u8, u8) = (15, 100);
    if let Some(content) = curve_content {
        if let Ok(curve) = parse_fan_curve(content) {
            if let Some(t) = curve.temp_range {
                temps = t;
            }
            if let Some(v) = curve.speed_range {
                speeds = v;
            }
            proof {
                lemma_stated_index(text::lines_of(content@));
                ordering_keeps_every_point(stated_points(text::lines_of(content@)), 256);
            }
        }
    }
    assert((temps, speeds) == curve_limits(text::opt_str(curve_content)));
    let raised: u8 = if speed_pct < speeds.0 {
        speeds.0
    } else {
        speed_pct
    };
    let speed: u8 = if raised > speeds.1 {
        speeds.1
    } else {
        raised
    };
    let steps: i64 = if num_points > 2 {
        num_points as i64 - 1
    } else {
        1
    };
    let span: i64 = temps.1 as i64 - temps.0 as i64;
    let mut points: Vec<FanCurvePoint> = Vec::new();
    let mut i: u8 = 0;
    while i < num_points
        invariant
            i <= num_points,
            num_points > 0 ==> temps.0 <= temps.1,
            span == temps.1 - temps.0,
            steps == (if num_points > 2 {
                num_points - 1
            } else {
                1
            }),
            speed == limited_speed(speed_pct, speeds),
            points@ == flat_curve(temps, speeds, speed_pct, num_points).take(i as int),
        decreases num_points - i,
    {
        assert(0 <= i * span <= 255 * 0xFFFF_FFFF) by (nonlinear_arith)
            requires
                0 <= i <= 255,
                0 <= span <= 0xFFFF_FFFF,
        ;
        proof {
            lemma_spread(temps, i as int, num_points as int);
        }
        let temp: i64 = temps.0 as i64 + (i as i64 * span) / steps;
        points.push(FanCurvePoint { index: i, temp_c: temp as i32, speed_pct: speed });
        assert(points@ =~= flat_curve(temps, speeds, speed_pct, num_points).take(i + 1));
        i += 1;
    }
    assert(points@ =~= flat_curve(temps, speeds, speed_pct, num_points));
    points
}

/// Sets a flat fan speed: zero-RPM mode is turned off first, where there is such a
/// file, so that the fan spins at any temperature; a failure of that is passed over.
///
/// `zero_rpm` is the path of the zero-RPM file and what reading it gave,
/// `curve_content` what reading the `fan_curve` file gave. The driver refuses points
/// outside the limits that the `fan_curve` file states, so the curve keeps to them.
pub fn set_static_speed<W: FanCurveWriter>(
    writer: &mut W,
    fan_curve_path: &str,
    zero_rpm: Option<(&str, Option<&str>)>,
    curve_content: Option<&str>,
    speed_pct: u8,
    num_points: u8,
) -> (r: Result<(), HwmonError>)
    requires
        ({
            let temps = curve_limits(text::opt_str(curve_content)).0;
            num_points > 0 ==> temps.0 <= temps.1
        }),
    ensures
        static_speed_set(
            old(writer).attempts(),
            final(writer).attempts(),
            fan_curve_path@,
            zero_rpm_text(zero_rpm),
            flat_curve(
                curve_limits(text::opt_str(curve_content)).0,
                curve_limits(text::opt_str(curve_content)).1,
                speed_pct,
                num_points,
            ),
            r,
        ),
{
    let ghost before = writer.attempts();
    let z: Result<(), HwmonError> = match zero_rpm {
        Some((path, content)) => disable_zero_rpm(writer, path, content),
        None => Ok(()),
    };
    let ghost mid = writer.attempts();
    assert(after_zero_rpm(before, mid, zero_rpm_text(zero_rpm), z));
    let points: Vec<FanCurvePoint> = static_curve(curve_content, speed_pct, num_points);
    let r: Result<(), HwmonError> = write_fan_curve_with(writer, fan_curve_path, &points);
    assert(curve_written(mid, writer.attempts(), fan_curve_path@, points@, r));
    r
}

// ---------------------------------------------------------------------------
// Giving the fan back
// ---------------------------------------------------------------------------

/// The writes that reset a curve, given those tried before: `r`, then `c` where
/// `r` was accepted. `failure` is the reason of the refusal, if there was one.
pub open spec fn curve_reset(
    before: Seq<WriteAttempt>,
    log: Seq<WriteAttempt>,
    path: Seq<char>,
    failure: Option<Seq<char>>,
) -> bool {
    ||| failure is Some && log == before.push(WriteAttempt { path, content: "r\n"@, failure })
    ||| log == before.push(accepted(path, "r\n"@)).push(
        WriteAttempt { path, content: "c\n"@, failure },
    )
}

/// Whether `log` and `z` are what the optional step of turning zero-RPM mode on
/// shows and returns.
pub open spec fn after_zero_rpm_on(
    before: Seq<WriteAttempt>,
    log: Seq<WriteAttempt>,
    zero_rpm_path: Option<Seq<char>>,
    z: Result<(), HwmonError>,
) -> bool {
    match zero_rpm_path {
        Some(path) => zero_rpm_turned_on(before, log, path, z),
        None => log == before && z is Ok,
    }
}

/// Resets the fan curve to the firmware's own, then turns zero-RPM mode on again
/// where there is such a file.
///
/// Zero-RPM mode is turned on even if the reset was refused: a flat speed may have
/// turned it off, and the fan would never stop at idle. Only the reset decides
/// the result.
pub fn reset_to_auto<W: FanCurveWriter>(
    writer: &mut W,
    fan_curve_path: &str,
    zero_rpm_path: Option<&str>,
) -> (r: Result<(), HwmonError>)
    ensures
        exists|mid: Seq<WriteAttempt>, failure: Option<Seq<char>>, z: Result<(), HwmonError>|
            {
                &&& #[trigger] curve_reset(
                    old(writer).attempts(),
                    mid,
                    fan_curve_path@,
                    failure,
                )
                &&& #[trigger] after_zero_rpm_on(
                    mid,
                    final(writer).attempts(),
                    text::opt_str(zero_rpm_path),
                    z,
                )
                &&& match r {
                    Ok(_) => failure is None,
                    Err(e) => failure is Some && e.is_write_error(
                        fan_curve_path@,
                        "failed to reset fan curve to auto: "@ + failure->0,
                    ),
                }
            },
{
    let ghost before = writer.attempts();
    let mut reset: Result<(), HwmonError> = writer.write(fan_curve_path, "r\n");
    if reset.is_ok() {
        reset = writer.write(fan_curve_path, "c\n");
    }
    let ghost mid = writer.attempts();
    let ghost failure = mid.last().failure;
    assert(curve_reset(before, mid, fan_curve_path@, failure));
    let z: Result<(), HwmonError> = match zero_rpm_path {
        Some(path) => enable_zero_rpm(writer, path),
        None => Ok(()),
    };
    assert(after_zero_rpm_on(mid, writer.attempts(), text::opt_str(zero_rpm_path), z));
    match reset {
        Ok(_) => Ok(()),
        Err(e) => {
            let mut message: String = "failed to reset fan curve to auto: ".to_owned();
            message.append(e.message());
            Err(HwmonError::WriteError { path: fan_curve_path.to_owned(), message })
        },
    }
}

// ---------------------------------------------------------------------------
// Cards without a firmware curve
// ---------------------------------------------------------------------------

/// Sets the fan speed of a card without a firmware curve: manual mode through
/// `pwm1_enable`, without which the driver refuses the value, then the raw value
/// to `pwm1`.
pub fn set_legacy_pwm<W: FanCurveWriter>(writer: &mut W, hwmon_path: &str, speed_pct: u8) -> (r:
    Result<(), HwmonError>)
    ensures
        ({
            let before = old(writer).attempts();
            let log = final(writer).attempts();
            let enable = text::joined(hwmon_path@, "pwm1_enable"@);
            let pwm = text::joined(hwmon_path@, "pwm1"@);
            let raw = text::decimal(pwm::raw_of_percent(speed_pct as int) as nat);
            let value = raw.push('\n');
            match r {
                Ok(_) => log == before.push(accepted(enable, "1\n"@)).push(accepted(pwm, value)),
                Err(e) => {
                    ||| {
                        &&& log.len() == before.len() + 1
                        &&& log.drop_last() == before
                        &&& refused(log.last(), enable, "1\n"@)
                        &&& e.is_write_error(
                            enable,
                            "failed to set manual mode: "@ + log.last().failure->0,
                        )
                    }
                    ||| {
                        &&& log.len() == before.len() + 2
                        &&& log.drop_last() == before.push(accepted(enable, "1\n"@))
                        &&& refused(log.last(), pwm, value)
                        &&& e.is_write_error(
                            pwm,
                            "failed to write PWM value "@ + raw + ": "@ + log.last().failure->0,
                        )
                    }
                },
            }
        }),
{
    let ghost before = writer.attempts();
    let enable_path: String = join_path(hwmon_path, "pwm1_enable");
    if let Err(e) = writer.write(enable_path.as_str(), "1\n") {
        assert(writer.attempts().drop_last() =~= before);
        let mut message: String = "failed to set manual mode: ".to_owned();
        message.append(e.message());
        return Err(HwmonError::WriteError { path: enable_path, message });
    }
    let pwm_path: String = join_path(hwmon_path, "pwm1");
    let raw: String = decimal_of(percent_to_raw(speed_pct) as u64);
    let mut value: String = raw.clone();
    value.push('\n');
    if let Err(e) = writer.write(pwm_path.as_str(), value.as_str()) {
        assert(writer.attempts().drop_last() =~= before.push(accepted(enable_path@, "1\n"@)));
        let mut message: String = "failed to write PWM value ".to_owned();
        message.append(raw.as_str());
        message.append(": ");
        message.append(e.message());
        return Err(HwmonError::WriteError { path: pwm_path, message });
    }
    Ok(())
}

/// Gives the fan of a card without a firmware curve back to the firmware: automatic
/// mode through `pwm1_enable`.
pub fn reset_legacy_to_auto<W: FanCurveWriter>(writer: &mut W, hwmon_path: &str) -> (r: Result<
    (),
    HwmonError,
>)
    ensures
        ({
            let before = old(writer).attempts();
            let log = final(writer).attempts();
            let enable = text::joined(hwmon_path@, "pwm1_enable"@);
            match r {
                Ok(_) => log == before.push(accepted(enable, "2\n"@)),
                Err(e) => {
                    &&& log.len() == before.len() + 1
                    &&& log.drop_last() == before
                    &&& refused(log.last(), enable, "2\n"@)
                    &&& e.is_write_error(
                        enable,
                        "failed to reset to auto mode: "@ + log.last().failure->0,
                    )
                },
            }
        }),
{
    let ghost before = writer.attempts();
    let enable_path: String = join_path(hwmon_path, "pwm1_enable");
    if let Err(e) = writer.write(enable_path.as_str(), "2\n") {
        assert(writer.attempts().drop_last() =~= before);
        let mut message: String = "failed to reset to auto mode: ".to_owned();
        message.append(e.message());
        return Err(HwmonError::WriteError { path: enable_path, message });
    }
    Ok(())
}

// ---------------------------------------------------------------------------
// Laws
// ---------------------------------------------------------------------------

/// A flat speed keeps to the range that the card states: every point has the asked speed
/// where that lies within the range, and else the nearest end of it.
pub proof fn a_flat_speed_keeps_to_the_stated_range(
    content: Seq<char>,
    lo: i32,
    hi: i32,
    speed: u8,
    n: u8,
    i: int,
)
    requires
        stated_points(text::lines_of(content)).len() > 0,
        stated_range(text::lines_of(content), "fan speed"@) == Some((lo, hi)),
        0 <= lo <= hi <= 255,
        0 <= i < n,
    ensures
        ({
            let limits = curve_limits(Some(content));
            let c = flat_curve(limits.0, limits.1, speed, n);
            &&& c.len() == n
            &&& c[i].index == i
            &&& lo <= c[i].speed_pct <= hi
            &&& lo <= speed <= hi ==> c[i].speed_pct == speed
            &&& speed < lo ==> c[i].speed_pct == lo
            &&& speed > hi ==> c[i].speed_pct == hi
        }),
{
}

/// A flat speed spreads its points over the temperatures that the card states, from the
/// lowest to the highest.
pub proof fn a_flat_speed_spans_the_stated_temperatures(
    content: Seq<char>,
    lo: i32,
    hi: i32,
    speed: u8,
    n: u8,
    i: int,
    j: int,
)
    requires
        stated_points(text::lines_of(content)).len() > 0,
        stated_range(text::lines_of(content), "hotspot temp"@) == Some((lo, hi)),
        lo <= hi,
        0 <= i <= j < n,
    ensures
        ({
            let limits = curve_limits(Some(content));
            let c = flat_curve(limits.0, limits.1, speed, n);
            &&& lo <= c[i].temp_c <= c[j].temp_c <= hi
            &&& c[0].temp_c == lo
            &&& n >= 2 ==> c[n - 1].temp_c == hi
        }),
{
    let t = curve_limits(Some(content)).0;
    let c = flat_curve(t, curve_limits(Some(content)).1, speed, n);
    lemma_spread(t, i, n as int);
    lemma_spread(t, j, n as int);
    lemma_spread(t, 0, n as int);
    lemma_spread(t, n - 1, n as int);
    let d = hi - lo;
    let steps: int = if n > 2 {
        n - 1
    } else {
        1
    };
    assert((i * d) / steps <= (j * d) / steps) by (nonlinear_arith)
        requires
            0 <= i <= j,
            d >= 0,
            steps >= 1,
    ;
}

/// The steps between the points of a flat speed are even: no two differ by more than one
/// degree.
pub proof fn a_flat_speed_is_spread_evenly(temps: (i32, i32), i: int, j: int, n: int)
    requires
        temps.0 <= temps.1,
        n > 2,
        0 <= i < n - 1,
        0 <= j < n - 1,
    ensures
        ({
            let a = spread_temp(temps, i + 1, n) - spread_temp(temps, i, n);
            let b = spread_temp(temps, j + 1, n) - spread_temp(temps, j, n);
            -1 <= a - b <= 1
        }),
{
    let d = temps.1 - temps.0;
    let s = n - 1;
    lemma_even_step(i, d, s);
    lemma_even_step(j, d, s);
}

proof fn lemma_even_step(i: int, d: int, s: int)
    requires
        0 <= i,
        d >= 0,
        s >= 1,
    ensures
        d / s <= ((i + 1) * d) / s - (i * d) / s <= d / s + 1,
{
    let x = i * d;
    assert((i + 1) * d == x + d) by (nonlinear_arith)
        requires
            x == i * d,
    ;
    assert(d / s <= (x + d) / s - x / s <= d / s + 1) by (nonlinear_arith)
        requires
            x >= 0,
            d >= 0,
            s >= 1,
    ;
    assert(x >= 0) by (nonlinear_arith)
        requires
            x == i * d,
            i >= 0,
            d >= 0,
    ;
}

/// The limits of 25 to 100 degrees and 15 to 100 percent count only where the file was not
/// read, holds no curve, or does not state the range.
pub proof fn the_defaults_stand_in_for_what_is_not_stated(content: Seq<char>)
    ensures
        curve_limits(None) == ((25i32, 100i32), (15u8, 100u8)),
        stated_points(text::lines_of(content)).len() == 0 ==> curve_limits(Some(content)) == (
            (25i32, 100i32),
            (15u8, 100u8),
        ),
        stated_range(text::lines_of(content), "fan speed"@) is None ==> curve_limits(
            Some(content),
        ).1 == (15u8, 100u8),
        stated_range(text::lines_of(content), "hotspot temp"@) is None ==> curve_limits(
            Some(content),
        ).0 == (25i32, 100i32),
{
}

/// A file is read line by line: the points of more lines come behind those of the first
/// ones, and of two ranges the one that comes later counts.
pub proof fn a_curve_is_read_line_by_line(
    a: Seq<Seq<char>>,
    b: Seq<Seq<char>>,
    what: Seq<char>,
)
    ensures
        stated_points(a + b) == stated_points(a) + stated_points(b),
        stated_range(a + b, what) == (if stated_range(b, what) is Some {
            stated_range(b, what)
        } else {
            stated_range(a, what)
        }),
    decreases b.len(),
{
    if b.len() == 0 {
        assert(a + b =~= a);
        assert(stated_points(a) + stated_points(b) =~= stated_points(a));
    } else {
        a_curve_is_read_line_by_line(a, b.drop_last(), what);
        assert((a + b).drop_last() =~= a + b.drop_last());
        assert(stated_points(a + b) =~= stated_points(a) + stated_points(b));
    }
}

proof fn lemma_numeral_len(s: Seq<char>, n: int)
    requires
        0 <= n <= s.len(),
        forall|k: int| 0 <= k < n ==> text::is_digit(s[k]) || s[k] == '-',
        n < s.len() ==> !text::is_digit(s[n]) && s[n] != '-',
    ensures
        numeral_len(s) == n,
    decreases s.len(),
{
    if n > 0 {
        assert(text::is_digit(s[0]) || s[0] == '-');
        assert forall|k: int| 0 <= k < n - 1 implies text::is_digit(s.skip(1)[k]) || s.skip(1)[k]
            == '-' by {
            assert(s.skip(1)[k] == s[k + 1]);
        }
        lemma_numeral_len(s.skip(1), n - 1);
    }
}

/// A number with a unit behind it is read as the number, whatever the unit.
pub proof fn a_number_is_read_before_its_unit(n: i32, unit: Seq<char>)
    requires
        unit.len() > 0 ==> !text::is_digit(unit[0]) && unit[0] != '-',
    ensures
        leading_number(text::signed_decimal(n as int) + unit) == Some(n),
{
    let d = text::signed_decimal(n as int);
    let s = d + unit;
    let m: nat = if n < 0 {
        (-(n as int)) as nat
    } else {
        n as nat
    };
    text::decimal_is_digits(m);
    text::a_written_signed_number_is_read_back(n as int, i32::MIN as int, i32::MAX as int);
    assert forall|k: int| 0 <= k < d.len() implies text::is_digit(s[k]) || s[k] == '-' by {
        assert(s[k] == d[k]);
        if n < 0 {
            if k > 0 {
                assert(d[k] == text::decimal(m)[k - 1]);
                assert(text::is_digit(text::decimal(m)[k - 1]));
            }
        } else {
            assert(text::is_digit(text::decimal(m)[k]));
        }
    }
    if d.len() < s.len() {
        assert(s[d.len() as int] == unit[0]);
    }
    lemma_numeral_len(s, d.len() as int);
    assert(s.take(d.len() as int) =~= d);
}

proof fn lemma_signed_no_white(n: i32, unit: Seq<char>)
    requires
        forall|k: int| 0 <= k < unit.len() ==> !text::is_white(#[trigger] unit[k]),
    ensures
        forall|k: int|
            0 <= k < (text::signed_decimal(n as int) + unit).len() ==> !text::is_white(
                #[trigger] (text::signed_decimal(n as int) + unit)[k],
            ) && (text::signed_decimal(n as int).len() > k ==> (text::signed_decimal(n as int)
                + unit)[k] != ':'),
        text::signed_decimal(n as int).len() > 0,
{
    let d = text::signed_decimal(n as int);
    let m: nat = if n < 0 {
        (-(n as int)) as nat
    } else {
        n as nat
    };
    text::decimal_is_digits(m);
    assert forall|k: int| 0 <= k < (d + unit).len() implies !text::is_white(
        #[trigger] (d + unit)[k],
    ) && (d.len() > k ==> (d + unit)[k] != ':') by {
        if k < d.len() {
            if n < 0 {
                if k > 0 {
                    assert(text::is_digit(text::decimal(m)[k - 1]));
                    assert(d[k] == text::decimal(m)[k - 1]);
                }
            } else {
                assert(text::is_digit(text::decimal(m)[k]));
            }
        } else {
            assert((d + unit)[k] == unit[k - d.len()]);
        }
    }
}

proof fn lemma_pair(lead: Seq<char>, a: i32, ua: Seq<char>, b: i32, ub: Seq<char>)
    requires
        text::is_blank(lead),
        forall|k: int| 0 <= k < ua.len() ==> !text::is_white(#[trigger] ua[k]),
        forall|k: int| 0 <= k < ub.len() ==> !text::is_white(#[trigger] ub[k]),
        ua.len() > 0 ==> !text::is_digit(ua[0]) && ua[0] != '-',
        ub.len() > 0 ==> !text::is_digit(ub[0]) && ub[0] != '-',
    ensures
        leading_pair(
            lead + (text::signed_decimal(a as int) + ua) + (seq![' '] + (text::signed_decimal(
                b as int,
            ) + ub)),
        ) == Some((a, b)),
{
    let wa = text::signed_decimal(a as int) + ua;
    let wb = text::signed_decimal(b as int) + ub;
    let blank = seq![' '];
    let rest = blank + wb;
    lemma_signed_no_white(a, ua);
    lemma_signed_no_white(b, ub);
    assert(text::is_blank(blank));
    text::words_are_what_stands_between_blanks(lead, wa, rest);
    assert(blank + wb + Seq::<char>::empty() =~= rest);
    text::words_are_what_stands_between_blanks(blank, wb, Seq::empty());
    let w = text::words_of(lead + wa + rest);
    assert(w[0] == wa);
    assert(w[1] == wb);
    a_number_is_read_before_its_unit(a, ua);
    a_number_is_read_before_its_unit(b, ub);
}

/// A point of the curve as the driver writes it is read as that point: its number, its
/// temperature and its speed, which is brought into 0 to 100.
pub proof fn a_written_point_is_read_back(index: u8, temp: i32, speed: i32)
    requires
        index < 10,
    ensures
        line_point(
            text::decimal(index as nat) + seq![':'] + (seq![' '] + (text::signed_decimal(
                temp as int,
            ) + seq!['C']) + (seq![' '] + (text::signed_decimal(speed as int) + seq!['%']))),
        ) == Some(
            FanCurvePoint {
                index,
                temp_c: temp,
                speed_pct: if speed < 0 {
                    0
                } else if speed > 100 {
                    100
                } else {
                    speed as u8
                },
            },
        ),
{
    let pair = seq![' '] + (text::signed_decimal(temp as int) + seq!['C']) + (seq![' '] + (
    text::signed_decimal(speed as int) + seq!['%']));
    let t = text::decimal(index as nat) + seq![':'] + pair;
    assert(text::is_blank(seq![' ']));
    lemma_pair(seq![' '], temp, seq!['C'], speed, seq!['%']);
    assert(text::decimal(index as nat) =~= seq![text::digit_char(index as int)]);
    assert(t.skip(2) =~= pair);
    assert(text::digit_value(t[0]) == index);
}

/// A range as the driver writes it is read as that range: what it is of, and its two ends
/// with their unit.
pub proof fn a_written_range_is_read_back(
    head: Seq<char>,
    what: Seq<char>,
    close: Seq<char>,
    lo: i32,
    hi: i32,
    unit: char,
)
    requires
        !text::is_white(unit),
        !text::is_digit(unit),
        unit != '-',
        unit != ':',
        !(head + what + close).contains(':'),
    ensures
        line_range(
            head + what + close + seq![':'] + (seq![' '] + (text::signed_decimal(lo as int)
                + seq![unit]) + (seq![' '] + (text::signed_decimal(hi as int) + seq![unit]))),
            what,
        ) == Some((lo, hi)),
{
    let key = head + what + close;
    let wa = text::signed_decimal(lo as int) + seq![unit];
    let wb = text::signed_decimal(hi as int) + seq![unit];
    let pair = seq![' '] + wa + (seq![' '] + wb);
    let t = key + seq![':'] + pair;
    assert(text::is_blank(seq![' ']));
    lemma_signed_no_white(lo, seq![unit]);
    lemma_signed_no_white(hi, seq![unit]);
    lemma_pair(seq![' '], lo, seq![unit], hi, seq![unit]);
    assert(!pair.contains(':')) by {
        if pair.contains(':') {
            let k = choose|k: int| 0 <= k < pair.len() && pair[k] == ':';
            if 1 <= k < 1 + wa.len() {
                assert(pair[k] == wa[k - 1]);
            } else if k >= 2 + wa.len() {
                assert(pair[k] == wb[k - 2 - wa.len()]);
            }
        }
    }
    text::pieces_of_joined(key, ':', pair);
    text::pieces_of_joined(pair, ':', key);
    assert(text::pieces(t, ':')[1] == pair);
    let tail = close + seq![':'] + pair;
    text::a_pattern_is_found_where_it_was_put(head, what, tail);
    assert(head + what + tail =~= t);
}

/// A point is commanded by its number, its temperature and its speed, in this order and
/// with blanks between them, and a line end.
pub proof fn a_point_is_commanded_in_three_words(p: FanCurvePoint)
    ensures
        point_command(p).last() == '\n',
        text::words_of(point_command(p)).len() == 3,
        text::parsed(text::words_of(point_command(p))[0], 10, 255) == Some(p.index as int),
        text::parsed_signed(
            text::words_of(point_command(p))[1],
            i32::MIN as int,
            i32::MAX as int,
        ) == Some(p.temp_c as int),
        text::parsed(text::words_of(point_command(p))[2], 10, 255) == Some(p.speed_pct as int),
{
    let a = text::decimal(p.index as nat);
    let b = text::signed_decimal(p.temp_c as int);
    let c = text::decimal(p.speed_pct as nat);
    let none = Seq::<char>::empty();
    let blank = seq![' '];
    let end = seq!['\n'];
    text::a_written_number_is_read_back(p.index as nat, 255);
    text::a_written_number_is_read_back(p.speed_pct as nat, 255);
    text::a_written_signed_number_is_read_back(p.temp_c as int, i32::MIN as int, i32::MAX as int);
    lemma_signed_no_white(p.index as i32, none);
    lemma_signed_no_white(p.temp_c, none);
    lemma_signed_no_white(p.speed_pct as i32, none);
    assert(a + none =~= a);
    assert(b + none =~= b);
    assert(c + none =~= c);
    assert(text::is_blank(none));
    assert(text::is_blank(blank));
    assert(text::is_blank(end));
    let tail3 = end;
    let tail2 = blank + c + tail3;
    let tail1 = blank + b + tail2;
    let s = point_command(p);
    assert(s =~= none + a + tail1);
    text::words_are_what_stands_between_blanks(none, a, tail1);
    text::words_are_what_stands_between_blanks(blank, b, tail2);
    text::words_are_what_stands_between_blanks(blank, c, tail3);
    text::words_are_what_stands_between_blanks(end, c, none);
    assert(text::words_of(tail3).len() == 0);
    assert(text::words_of(s) =~= seq![a, b, c]);
}

/// A flat speed that was set shows in the writes: every point within the card's limits, in
/// order, and the commit behind them, all of them taken; and nothing before them but what
/// turns zero-RPM mode off.
pub proof fn a_speed_that_was_set_was_written_in_full(
    before: Seq<WriteAttempt>,
    log: Seq<WriteAttempt>,
    path: Seq<char>,
    points: Seq<FanCurvePoint>,
    r: Result<(), HwmonError>,
    i: int,
)
    requires
        static_speed_set(before, log, path, None, points, r),
        r is Ok,
        0 <= i < points.len(),
    ensures
        log.len() == before.len() + points.len() + 1,
        log[before.len() + i] == (WriteAttempt {
            path,
            content: point_command(points[i]),
            failure: None,
        }),
        log.last() == (WriteAttempt { path, content: "c\n"@, failure: None }),
        log.take(before.len() as int) == before,
{
    let (mid, z) = choose|mid: Seq<WriteAttempt>, z: Result<(), HwmonError>|
        #![trigger curve_written(mid, log, path, points, r), after_zero_rpm(before, mid, None, z)]
        after_zero_rpm(before, mid, None, z) && curve_written(mid, log, path, points, r);
    assert(mid == before);
    let commands = curve_commands(points);
    assert(commands.len() == points.len() + 1);
    assert(log[before.len() + i] == accepted(path, commands[i]));
    assert(log[before.len() + points.len() as int] == accepted(path, commands[points.len() as int]));
}

/// A curve that was not written in full ends with the refused write, behind which nothing
/// is tried; and the commit is never tried behind a refused point.
pub proof fn nothing_is_written_behind_a_refusal(
    before: Seq<WriteAttempt>,
    log: Seq<WriteAttempt>,
    path: Seq<char>,
    points: Seq<FanCurvePoint>,
    r: Result<(), HwmonError>,
)
    requires
        curve_written(before, log, path, points, r),
        r is Err,
    ensures
        before.len() < log.len() <= before.len() + points.len() + 1,
        log.last().failure is Some,
        log.last().path == path,
        log.len() <= before.len() + points.len() ==> log.last().content == point_command(
            points[log.len() - before.len() - 1],
        ),
        log.len() == before.len() + points.len() + 1 ==> log.last().content == "c\n"@,
        forall|k: int| before.len() <= k < log.len() - 1 ==> (#[trigger] log[k]).failure is None,
{
    let commands = curve_commands(points);
    let stop = choose|stop: int|
        0 <= stop < commands.len() && #[trigger] wrote_until(before, log, path, commands, stop)
            && r->Err_0.is_write_error(path, curve_failure(points, stop));
    assert(log.last() == log[before.len() + stop]);
    assert forall|k: int| before.len() <= k < log.len() - 1 implies (
    #[trigger] log[k]).failure is None by {
        assert(log[before.len() + (k - before.len())] == accepted(
            path,
            commands[k - before.len()],
        ));
    }
}

/// Zero-RPM mode is off where the line below the header is `0`, and not where it is
/// anything else; lines before the header say nothing.
pub proof fn the_line_below_the_header_says_the_mode(
    pre: Seq<Seq<char>>,
    header: Seq<char>,
    value: Seq<char>,
    post: Seq<Seq<char>>,
)
    requires
        forall|k: int| 0 <= k < pre.len() ==> !is_zero_rpm_header(#[trigger] pre[k]),
        text::holds(header, "FAN_ZERO_RPM_ENABLE:"@),
        !text::holds(header, "OD_RANGE"@),
        !is_zero_rpm_header(value),
    ensures
        zero_rpm_value(pre + seq![header, value] + post, false) == Some(text::trimmed(value)),
        zero_rpm_value(pre, false) is None,
    decreases pre.len(),
{
    let ls = pre + seq![header, value] + post;
    if pre.len() == 0 {
        assert(ls[0] == header);
        assert(ls.skip(1)[0] == value);
        assert(zero_rpm_value(ls.skip(1), true) == Some(text::trimmed(value)));
    } else {
        let rest = pre.skip(1);
        assert(!is_zero_rpm_header(pre[0]));
        assert forall|k: int| 0 <= k < rest.len() implies !is_zero_rpm_header(
            #[trigger] rest[k],
        ) by {
            assert(rest[k] == pre[k + 1]);
        }
        the_line_below_the_header_says_the_mode(rest, header, value, post);
        assert(ls.skip(1) =~= rest + seq![header, value] + post);
        assert(ls[0] == pre[0]);
    }
}

/// Zero-RPM mode is left alone where it is off already, and is else turned off by writing
/// `0` and the commit. Turning it on writes `1` and the commit.
pub proof fn zero_rpm_mode_is_switched_by_its_value(
    before: Seq<WriteAttempt>,
    log: Seq<WriteAttempt>,
    path: Seq<char>,
    content: Option<Seq<char>>,
    r: Result<(), HwmonError>,
)
    ensures
        zero_rpm_turned_off(before, log, path, content, r) && r is Ok ==> {
            ||| log == before && content is Some && zero_rpm_value(
                text::lines_of(content->0),
                false,
            ) == Some("0"@)
            ||| log == before.push((WriteAttempt { path, content: "0\n"@, failure: None })).push(
                (WriteAttempt { path, content: "c\n"@, failure: None }),
            ) && !(content is Some && zero_rpm_value(text::lines_of(content->0), false) == Some(
                "0"@,
            ))
        },
        zero_rpm_turned_on(before, log, path, r) && r is Ok ==> log == before.push(
            (WriteAttempt { path, content: "1\n"@, failure: None }),
        ).push((WriteAttempt { path, content: "c\n"@, failure: None })),
{
}

/// The firmware's own curve comes back by writing `r` and the commit, both of them taken.
pub proof fn a_reset_is_two_writes(
    before: Seq<WriteAttempt>,
    log: Seq<WriteAttempt>,
    path: Seq<char>,
    failure: Option<Seq<char>>,
)
    requires
        curve_reset(before, log, path, failure),
    ensures
        failure is None ==> log == before.push(
            (WriteAttempt { path, content: "r\n"@, failure: None }),
        ).push((WriteAttempt { path, content: "c\n"@, failure: None })),
        failure is Some ==> log.last().failure == failure && log.len() >= before.len() + 1,
        log.take(before.len() as int) == before,
{
    assert(log.take(before.len() as int) =~= before);
}

/// Giving a fan back ends with zero-RPM mode turned on where there is such a file, and
/// without a further write where there is none.
pub proof fn zero_rpm_mode_comes_back_where_it_is_known(
    before: Seq<WriteAttempt>,
    log: Seq<WriteAttempt>,
    zero_rpm_path: Option<Seq<char>>,
    z: Result<(), HwmonError>,
)
    requires
        after_zero_rpm_on(before, log, zero_rpm_path, z),
    ensures
        zero_rpm_path is None ==> log == before && z is Ok,
        zero_rpm_path matches Some(path) ==> {
            &&& log.len() > before.len()
            &&& log[before.len() as int].path == path
            &&& log[before.len() as int].content == "1\n"@
            &&& z is Ok ==> log == before.push(
                (WriteAttempt { path, content: "1\n"@, failure: None }),
            ).push((WriteAttempt { path, content: "c\n"@, failure: None }))
            &&& z is Err ==> log.last().failure is Some
        },
{
    if let Some(path) = zero_rpm_path {
        if z is Err && log.len() == before.len() + 2 {
            let first = log.drop_last();
            assert(log[before.len() as int] == first[before.len() as int]);
        }
    }
}

/// The file of zero-RPM mode is told with its path and with what was read of it.
pub proof fn a_zero_rpm_file_is_told_as_it_is(path: &str, content: Option<&str>)
    ensures
        zero_rpm_text(Some((path, content))) == Some((path@, text::opt_str(content))),
        zero_rpm_text(None) is None,
{
}

/// A line states a range only of what it names, and only behind a colon; the same holds of
/// the points.
pub proof fn a_line_states_only_what_it_names(t: Seq<char>, what: Seq<char>)
    ensures
        !text::holds(t, what) ==> line_range(t, what) is None,
        !t.contains(':') ==> line_range(t, what) is None && line_point(t) is None,
        line_point(t) matches Some(p) ==> {
            &&& text::is_digit(t[0])
            &&& t[1] == ':'
            &&& p.index <= 9
            &&& p.speed_pct <= 100
        },
{
    text::a_text_is_cut_at_every_mark(t, ':');
    if line_point(t) is Some {
        assert(t.contains(t[1]));
    }
}

/// The header of zero-RPM mode names it, and no line on a range is one.
pub proof fn a_range_line_is_no_header(line: Seq<char>, a: Seq<char>, b: Seq<char>)
    ensures
        !is_zero_rpm_header(a + "OD_RANGE"@ + b),
        is_zero_rpm_header(line) ==> exists|x: Seq<char>, y: Seq<char>| #[trigger]
            text::is_around(line, x, "FAN_ZERO_RPM_ENABLE:"@, y),
{
    text::a_pattern_is_found_where_it_was_put(a, "OD_RANGE"@, b);
    text::a_found_pattern_is_part_of_the_text(line, "FAN_ZERO_RPM_ENABLE:"@);
}

/// A switch of zero-RPM mode that was refused is told with the file and with the reason of
/// the refusal, which was the last attempt.
pub proof fn a_refused_switch_is_told_with_its_reason(
    before: Seq<WriteAttempt>,
    log: Seq<WriteAttempt>,
    path: Seq<char>,
    content: Option<Seq<char>>,
    e: HwmonError,
)
    requires
        zero_rpm_turned_off(before, log, path, content, Err(e)) || zero_rpm_turned_on(
            before,
            log,
            path,
            Err(e),
        ),
    ensures
        e is WriteError,
        e.path_text() == path,
        log.last().path == path,
        log.last().failure is Some,
        text::ends(e.message_text(), log.last().failure->0),
        log.len() == before.len() + 1 || log.len() == before.len() + 2,
{
    let reason = log.last().failure->0;
    text::a_pattern_is_found_where_it_was_put("failed to disable fan zero-RPM: "@, reason, ""@);
    text::a_pattern_is_found_where_it_was_put("failed to commit zero-RPM disable: "@, reason, ""@);
    text::a_pattern_is_found_where_it_was_put("failed to enable fan zero-RPM: "@, reason, ""@);
    text::a_pattern_is_found_where_it_was_put("failed to commit zero-RPM enable: "@, reason, ""@);
}

/// The points of a curve are those that its lines state, each as often as it is stated, with
/// their indices going up.
pub proof fn every_stated_point_is_on_the_curve(content: Seq<char>, i: int, j: int)
    ensures
        ({
            let pts = curve_points(content);
            let all = stated_points(text::lines_of(content));
            &&& pts.to_multiset() == all.to_multiset()
            &&& pts.len() == all.len()
            &&& 0 <= i <= j < pts.len() ==> pts[i].index <= pts[j].index
        }),
{
    ordering_keeps_every_point(stated_points(text::lines_of(content)), 256);
}

/// A curve that was not written is told by the point that was refused, with its index, its
/// temperature and its speed; a refused commit is told as such.
pub proof fn a_refused_point_is_named(points: Seq<FanCurvePoint>, stop: int)
    requires
        0 <= stop,
    ensures
        stop < points.len() ==> {
            let p = points[stop];
            let words = curve_failure(points, stop);
            &&& text::starts(
                words,
                "failed to write curve point "@ + text::decimal(p.index as nat) + " ("@
                    + text::signed_decimal(p.temp_c as int),
            )
            &&& text::ends(words, text::decimal(p.speed_pct as nat) + "%)"@)
        },
        stop >= points.len() ==> curve_failure(points, stop) == "failed to commit fan curve"@,
{
    if stop < points.len() {
        let p = points[stop];
        let words = curve_failure(points, stop);
        let a = "failed to write curve point "@ + text::decimal(p.index as nat) + " ("@
            + text::signed_decimal(p.temp_c as int);
        let z = text::decimal(p.speed_pct as nat) + "%)"@;
        assert(words =~= a + ("°C "@ + z));
        text::a_pattern_is_found_where_it_was_put(a, a, "°C "@ + z);
        assert(words =~= (a + "°C "@) + z);
        text::a_pattern_is_found_where_it_was_put(a + "°C "@, z, z);
    }
}

} // verus!
