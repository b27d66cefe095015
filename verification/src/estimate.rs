//! How large a playlist is likely to be when not all sizes are known: from the bandwidth
//! of the variant and the playing time, or from the parts that are whole.

use vstd::prelude::*;

use crate::manifest::{clean_chars, cleaned, line_parts};
use crate::text::{
    all_digits, cut_at, decimal, digit, has_prefix, is_digit, law_cut_at_the_first,
    law_decimal_round_trip, law_trimmed_stays, lemma_decimal, number_upto, parse_upto, split,
    split_once, strip_prefix, texts, trim, trimmed, white_space,
};

verus! {

/// Longest playing time of one segment in seconds.
pub const MAX_SEGMENT_SECONDS: u64 = 4_294_967_295;

/// Value of the digit at a place behind the point.
pub open spec fn digit_at(s: Seq<char>, k: int) -> int {
    if k < s.len() { s[k] as u32 - 48 } else { 0 }
}

/// Milliseconds of what stands behind the point of a number of seconds. Finer digits
/// count for nothing.
pub open spec fn fraction_millis(s: Seq<char>) -> int {
    digit_at(s, 0) * 100 + digit_at(s, 1) * 10 + digit_at(s, 2)
}

/// Milliseconds of a decimal number of seconds.
pub open spec fn seconds_millis(s: Seq<char>) -> Option<int> {
    match cut_at(s, '.') {
        None => match number_upto(s, MAX_SEGMENT_SECONDS as int) {
            Some(n) => Some(n * 1000),
            None => None,
        },
        Some(p) => match number_upto(p.0, MAX_SEGMENT_SECONDS as int) {
            Some(n) => if all_digits(p.1) {
                Some(n * 1000 + fraction_millis(p.1))
            } else {
                None
            },
            None => None,
        },
    }
}

/// The playing time that a line states for the segment behind it: what stands before the
/// comma. One that is no number counts as none.
pub open spec fn line_millis(raw: Seq<char>) -> Option<int> {
    let line = trimmed(raw);
    if has_prefix(line, "#EXTINF:"@) {
        let rest = line.skip("#EXTINF:"@.len() as int);
        let time = match cut_at(rest, ',') {
            Some(p) => p.0,
            None => rest,
        };
        match seconds_millis(trimmed(time)) {
            Some(n) => Some(n),
            None => Some(0),
        }
    } else {
        None
    }
}

/// The playing times that some lines state, in milliseconds.
pub open spec fn lines_millis(lines: Seq<Seq<char>>) -> Seq<int>
    decreases lines.len(),
{
    if lines.len() == 0 {
        Seq::empty()
    } else {
        let rest = lines_millis(lines.drop_last());
        match line_millis(lines.last()) {
            Some(n) => rest.push(n),
            None => rest,
        }
    }
}

/// The playing times of the segments of a media playlist, in milliseconds.
pub open spec fn durations_of(text: Seq<char>) -> Seq<int> {
    lines_millis(line_parts(cleaned(text)))
}

/// The playing times as numbers.
pub open spec fn as_ints(v: Seq<u64>) -> Seq<int> {
    Seq::new(v.len(), |i: int| v[i] as int)
}

fn digit_value(v: &Vec<char>, k: usize) -> (r: u64)
    requires
        all_digits(v@),
    ensures
        r == digit_at(v@, k as int),
        r <= 9,
{
    if k < v.len() {
        assert(is_digit(v@[k as int]));
        (v[k] as u32 - 48) as u64
    } else {
        0
    }
}

fn only_digits(v: &Vec<char>) -> (r: bool)
    ensures
        r == all_digits(v@),
{
    let mut i: usize = 0;
    while i < v.len()
        invariant
            i <= v@.len(),
            forall|j: int| 0 <= j < i ==> is_digit(#[trigger] v@[j]),
        decreases v@.len() - i,
    {
        let c: char = v[i];
        if !('0' <= c && c <= '9') {
            assert(!is_digit(v@[i as int]));
            return false;
        }
        i = i + 1;
    }
    true
}

/// Reads a decimal number of seconds as milliseconds.
pub fn parse_seconds(v: &Vec<char>) -> (r: Option<u64>)
    ensures
        match r {
            Some(n) => seconds_millis(v@) == Some(n as int),
            None => seconds_millis(v@) is None,
        },
{
    match split_once(v, '.') {
        None => match parse_upto(v, MAX_SEGMENT_SECONDS) {
            Some(n) => {
                assert(n <= MAX_SEGMENT_SECONDS);
                Some(n * 1000)
            },
            None => None,
        },
        Some(p) => match parse_upto(&p.0, MAX_SEGMENT_SECONDS) {
            Some(n) => {
                if !only_digits(&p.1) {
                    return None;
                }
                let a: u64 = digit_value(&p.1, 0);
                let b: u64 = digit_value(&p.1, 1);
                let c: u64 = digit_value(&p.1, 2);
                assert(n <= MAX_SEGMENT_SECONDS);
                Some(n * 1000 + (a * 100 + b * 10 + c))
            },
            None => None,
        },
    }
}

fn read_line(raw: &Vec<char>) -> (r: Option<u64>)
    ensures
        match r {
            Some(n) => line_millis(raw@) == Some(n as int),
            None => line_millis(raw@) is None,
        },
{
    let line = trim(raw);
    match strip_prefix(&line, "#EXTINF:") {
        None => None,
        Some(rest) => {
            assert(rest@ =~= line@.skip("#EXTINF:"@.len() as int));
            let time: Vec<char> = match split_once(&rest, ',') {
                Some(p) => p.0,
                None => rest,
            };
            let t = trim(&time);
            match parse_seconds(&t) {
                Some(n) => Some(n),
                None => Some(0),
            }
        },
    }
}

/// The playing times of the segments of a media playlist, in milliseconds.
pub fn parse_durations(text: &str) -> (r: Vec<u64>)
    ensures
        as_ints(r@) == durations_of(text@),
{
    let v = clean_chars(text);
    let lines = split(&v, '\n');
    let ghost all = line_parts(cleaned(text@));
    let mut out: Vec<u64> = Vec::new();
    let mut i: usize = 0;
    assert(all.take(0) =~= Seq::<Seq<char>>::empty());
    assert(as_ints(out@) =~= lines_millis(all.take(0)));
    while i < lines.len()
        invariant
            i <= lines@.len(),
            texts(lines@) == all,
            as_ints(out@) == lines_millis(all.take(i as int)),
        decreases lines@.len() - i,
    {
        let ghost before = out@;
        proof {
            assert(all.take(i + 1).drop_last() =~= all.take(i as int));
            assert(all[i as int] == lines@[i as int]@);
            assert(all.take(i + 1).last() == lines@[i as int]@);
        }
        match read_line(&lines[i]) {
            Some(n) => {
                out.push(n);
                assert(as_ints(out@) =~= as_ints(before).push(n as int));
            },
            None => {},
        }
        i = i + 1;
    }
    assert(all.take(i as int) =~= all);
    out
}

/// The sum of some numbers.
pub open spec fn sum_of(v: Seq<u64>) -> int
    decreases v.len(),
{
    if v.len() == 0 {
        0
    } else {
        sum_of(v.drop_last()) + v.last()
    }
}

/// A sum is at least as large as each of its terms and as each of its beginnings.
pub proof fn lemma_sum_of(v: Seq<u64>, k: int)
    requires
        0 <= k <= v.len(),
    ensures
        0 <= sum_of(v.take(k)) <= sum_of(v),
        k < v.len() ==> v[k] <= sum_of(v),
    decreases v.len(),
{
    if v.len() > 0 {
        let front = v.drop_last();
        if k < v.len() {
            lemma_sum_of(front, k);
            assert(v.take(k) =~= front.take(k));
            lemma_sum_of(front, 0);
            assert(front.take(0) =~= Seq::<u64>::empty());
        } else {
            assert(v.take(k) =~= v);
            lemma_sum_of(front, front.len() as int);
            assert(front.take(front.len() as int) =~= front);
        }
    }
}

/// A sum with one term changed.
pub proof fn lemma_sum_update(v: Seq<u64>, k: int, n: u64)
    requires
        0 <= k < v.len(),
    ensures
        sum_of(v.update(k, n)) == sum_of(v) - v[k] + n,
    decreases v.len(),
{
    let w = v.update(k, n);
    if k == v.len() - 1 {
        assert(w.drop_last() =~= v.drop_last());
    } else {
        lemma_sum_update(v.drop_last(), k, n);
        assert(w.drop_last() =~= v.drop_last().update(k, n));
    }
}

/// Nothing adds up to nothing.
pub proof fn lemma_sum_zero(v: Seq<u64>)
    requires
        forall|i: int| 0 <= i < v.len() ==> #[trigger] v[i] == 0,
    ensures
        sum_of(v) == 0,
    decreases v.len(),
{
    if v.len() > 0 {
        let front = v.drop_last();
        assert forall|i: int| 0 <= i < front.len() implies #[trigger] front[i] == 0 by {
            assert(v[i] == 0);
        }
        lemma_sum_zero(front);
    }
}

/// At most the largest 64-bit number.
pub open spec fn at_most_u64(n: int) -> int {
    if n > u64::MAX { u64::MAX as int } else { n }
}

/// Sum of some numbers, at most the largest one.
pub fn capped_sum(v: &Vec<u64>) -> (r: u64)
    ensures
        r == at_most_u64(sum_of(v@)),
{
    let mut s: u64 = 0;
    let mut i: usize = 0;
    assert(v@.take(0) =~= Seq::<u64>::empty());
    while i < v.len()
        invariant
            i <= v@.len(),
            s == at_most_u64(sum_of(v@.take(i as int))),
        decreases v@.len() - i,
    {
        proof {
            assert(v@.take(i + 1).drop_last() =~= v@.take(i as int));
            lemma_sum_of(v@, i as int);
        }
        let x: u64 = v[i];
        s = if x > u64::MAX - s { u64::MAX } else { s + x };
        i = i + 1;
    }
    assert(v@.take(i as int) =~= v@);
    s
}

/// The likely size of a stream: bits per second over the playing time, in bytes. Without
/// a bandwidth or a playing time there is none.
pub open spec fn estimated(bandwidth: u64, durations: Seq<u64>) -> Option<u64> {
    let millis = at_most_u64(sum_of(durations));
    let bytes = bandwidth * millis / 8000;
    if bytes == 0 {
        None
    } else {
        Some(at_most_u64(bytes) as u64)
    }
}

/// The likely size of a stream with this bandwidth in bits per second and these playing
/// times in milliseconds.
pub fn estimate_total(bandwidth: u64, durations: &Vec<u64>) -> (r: Option<u64>)
    ensures
        r == estimated(bandwidth, durations@),
{
    let millis: u64 = capped_sum(durations);
    assert(0 <= bandwidth * millis <= 0xffff_ffff_ffff_ffff * 0xffff_ffff_ffff_ffff) by (nonlinear_arith)
        requires
            0 <= bandwidth <= 0xffff_ffff_ffff_ffff,
            0 <= millis <= 0xffff_ffff_ffff_ffff,
    ;
    let bytes: u128 = bandwidth as u128 * millis as u128 / 8000;
    if bytes == 0 {
        None
    } else if bytes > u64::MAX as u128 {
        Some(u64::MAX)
    } else {
        Some(bytes as u64)
    }
}

/// The likely size of a file of `total` parts of which the first `whole` have `bytes`
/// bytes: as if all were like these. Without any byte there is none.
pub open spec fn measured(bytes: u64, whole: usize, total: usize) -> Option<u64> {
    if whole == 0 || bytes == 0 {
        None
    } else {
        Some(at_most_u64(bytes * total / whole as int) as u64)
    }
}

/// The likely size of a file of which the first parts are there.
pub fn measure_total(bytes: u64, whole: usize, total: usize) -> (r: Option<u64>)
    ensures
        r == measured(bytes, whole, total),
{
    if whole == 0 || bytes == 0 {
        return None;
    }
    assert(0 <= bytes * total <= 0xffff_ffff_ffff_ffff * 0xffff_ffff_ffff_ffff) by (nonlinear_arith)
        requires
            0 <= bytes <= 0xffff_ffff_ffff_ffff,
            0 <= total <= 0xffff_ffff_ffff_ffff,
    ;
    let n: u128 = bytes as u128 * total as u128 / whole as u128;
    if n > u64::MAX as u128 {
        Some(u64::MAX)
    } else {
        Some(n as u64)
    }
}

/// Where all parts have the same size, the size of everything is known from the first.
pub proof fn law_even_parts_are_measured_exactly(size: u64, whole: usize, total: usize)
    requires
        size > 0,
        0 < whole <= total,
        size * total <= u64::MAX,
    ensures
        measured((size * whole) as u64, whole, total) == Some((size * total) as u64),
{
    let s = size as int;
    let w = whole as int;
    let t = total as int;
    assert(0 < s * w <= s * t) by (nonlinear_arith)
        requires
            0 < s,
            0 < w <= t,
    ;
    assert((s * w) * t / w == s * t) by (nonlinear_arith)
        requires
            0 < w,
    ;
}

/// A playing time in seconds is read to the millisecond: whole seconds, or with up to three
/// digits behind a point.
pub proof fn law_playing_time_is_read(n: u64, a: int, b: int, c: int)
    requires
        n <= 4_294_967_295,
        0 <= a < 10,
        0 <= b < 10,
        0 <= c < 10,
    ensures
        seconds_millis(decimal(n as nat)) == Some(n * 1000),
        seconds_millis(decimal(n as nat).push('.') + seq![digit(a)]) == Some(n * 1000 + a * 100),
        seconds_millis(decimal(n as nat).push('.') + seq![digit(a), digit(b), digit(c)]) == Some(
            n * 1000 + a * 100 + b * 10 + c,
        ),
{
    let d = decimal(n as nat);
    lemma_decimal(n as nat);
    law_decimal_round_trip(n as nat);
    assert(is_digit(d[0]));
    assert(!d.contains('.')) by {
        if d.contains('.') {
            let i = choose|i: int| 0 <= i < d.len() && d[i] == '.';
            assert(is_digit(d[i]));
        }
    }
    let x = seq![digit(a)];
    let y = seq![digit(a), digit(b), digit(c)];
    law_cut_at_the_first(d, x, '.');
    law_cut_at_the_first(d, y, '.');
    assert(all_digits(x));
    assert(all_digits(y));
}

/// The line before a segment states its playing time between its tag and a comma; a title
/// may follow.
pub proof fn law_segment_line_states_its_time(time: Seq<char>, title: Seq<char>, n: int)
    requires
        time.len() > 0,
        !time.contains(','),
        trimmed(time) == time,
        seconds_millis(time) == Some(n),
        title.len() > 0 ==> !white_space(title.last()),
    ensures
        line_millis("#EXTINF:"@ + (time.push(',') + title)) == Some(n),
{
    let p = "#EXTINF:"@;
    reveal_strlit("#EXTINF:");
    let rest = time.push(',') + title;
    let s = p + rest;
    assert(s[0] == '#');
    assert(s.last() == rest.last());
    assert(rest.last() == if title.len() > 0 { title.last() } else { ',' });
    law_trimmed_stays(s);
    assert(s.take(p.len() as int) =~= p);
    assert(s.skip(p.len() as int) =~= rest);
    law_cut_at_the_first(time, title, ',');
}

/// Playing times are read line by line, in order.
pub proof fn law_playing_times_keep_their_order(a: Seq<Seq<char>>, b: Seq<Seq<char>>)
    ensures
        lines_millis(a + b) == lines_millis(a) + lines_millis(b),
    decreases b.len(),
{
    if b.len() == 0 {
        assert(a + b =~= a);
        assert(lines_millis(a) + lines_millis(b) =~= lines_millis(a));
    } else {
        law_playing_times_keep_their_order(a, b.drop_last());
        assert((a + b).drop_last() =~= a + b.drop_last());
        assert((a + b).last() == b.last());
        assert(lines_millis(a + b) =~= lines_millis(a) + lines_millis(b));
    }
}

/// A likely size is the bits per second over the playing time, in bytes, rounded down.
pub proof fn law_likely_size_is_bits_over_time(bandwidth: u64, durations: Seq<u64>)
    requires
        0 <= sum_of(durations) <= u64::MAX,
        bandwidth * sum_of(durations) / 8000 <= u64::MAX,
    ensures
        ({
            let bits = bandwidth * sum_of(durations);
            match estimated(bandwidth, durations) {
                Some(v) => v > 0 && v * 8000 <= bits < (v + 1) * 8000,
                None => bits < 8000,
            }
        }),
{
    let bits = bandwidth * sum_of(durations);
    assert(0 <= bits) by (nonlinear_arith)
        requires
            bits == bandwidth * sum_of(durations),
            sum_of(durations) >= 0,
            bandwidth >= 0,
    ;
}

/// A measured size is the bytes so far, in the proportion of all parts to those that are
/// whole, rounded down.
pub proof fn law_measured_size_is_in_proportion(bytes: u64, whole: usize, total: usize)
    requires
        0 < whole,
        0 < bytes,
        bytes * total / whole as int <= u64::MAX,
    ensures
        ({
            let v = measured(bytes, whole, total);
            &&& v is Some
            &&& v->0 * whole <= bytes * total < (v->0 + 1) * whole
        }),
        measured(0, whole, total) is None,
        measured(bytes, 0, total) is None,
{
    let b = bytes * total;
    let w = whole as int;
    let v = b / w;
    assert(0 <= b) by (nonlinear_arith)
        requires
            b == bytes * total,
            bytes >= 0,
            total >= 0,
    ;
    assert(v * w <= b < (v + 1) * w && v >= 0) by (nonlinear_arith)
        requires
            v == b / w,
            w > 0,
            b >= 0,
    ;
}

} // verus!
