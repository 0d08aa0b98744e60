//! The dataset file format: tab-separated rows of a date and a decimal
//! value, one header line first.
//!
//! A row is `YYYY-MM-DD`, a tab, then an optional minus, up to twelve
//! integer digits, and optionally a point with one to three fraction
//! digits.  Values are returned in thousandths, so every row is exact.

use vstd::prelude::*;
use crate::date::{Date, days_in_month, month_days};
use crate::dec::{pow10, lemma_pow10_unfold, lemma_pow10_values, lemma_pow10_le};

verus! {

/// An ASCII decimal digit.
pub open spec fn is_digit(b: u8) -> bool {
    48 <= b <= 57
}

pub open spec fn digit_val(b: u8) -> int {
    b - 48
}

/// The ten bytes of a row's date field form a valid calendar date.
pub open spec fn date_ok(d: Seq<u8>) -> bool {
    &&& d.len() == 10
    &&& is_digit(d[0]) && is_digit(d[1]) && is_digit(d[2]) && is_digit(d[3])
    &&& d[4] == 45
    &&& is_digit(d[5]) && is_digit(d[6])
    &&& d[7] == 45
    &&& is_digit(d[8]) && is_digit(d[9])
    &&& 1 <= date_month(d) <= 12
    &&& 1 <= date_day(d) <= days_in_month(date_year(d), date_month(d))
}

pub open spec fn date_year(d: Seq<u8>) -> int {
    ((digit_val(d[0]) * 10 + digit_val(d[1])) * 10 + digit_val(d[2])) * 10 + digit_val(d[3])
}

pub open spec fn date_month(d: Seq<u8>) -> int {
    digit_val(d[5]) * 10 + digit_val(d[6])
}

pub open spec fn date_day(d: Seq<u8>) -> int {
    digit_val(d[8]) * 10 + digit_val(d[9])
}

/// The date the ten bytes spell.
pub open spec fn date_of(d: Seq<u8>) -> Date {
    Date { year: date_year(d) as i32, month: date_month(d) as u8, day: date_day(d) as u8 }
}

/// From position `i` of an unsigned value, having read `n` integer
/// digits: more digits may follow, or a point and a short fraction,
/// and the integer part ends up one to twelve digits long.
pub open spec fn num_ok(u: Seq<u8>, i: int, n: int) -> bool
    decreases u.len() - i,
{
    if i >= u.len() {
        1 <= n <= 12
    } else if is_digit(u[i]) {
        num_ok(u, i + 1, n + 1)
    } else if u[i] == 46 {
        1 <= n <= 12 && frac_ok(u, i + 1)
    } else {
        false
    }
}

/// One to three fraction digits fill the rest of the value.
pub open spec fn frac_ok(u: Seq<u8>, i: int) -> bool {
    1 <= u.len() - i <= 3 && (forall|j: int| i <= j < u.len() ==> is_digit(#[trigger] u[j]))
}

/// The whole value field: an optional minus before the unsigned form.
pub open spec fn value_ok(v: Seq<u8>) -> bool {
    if v.len() > 0 && v[0] == 45 {
        num_ok(v.subrange(1, v.len() as int), 0, 0)
    } else {
        num_ok(v, 0, 0)
    }
}

/// The unsigned value in thousandths, read from position `i` with the
/// integer digits so far in `acc`.
pub open spec fn milli_val(u: Seq<u8>, i: int, acc: int) -> int
    decreases u.len() - i,
{
    if i >= u.len() {
        acc * 1000
    } else if is_digit(u[i]) {
        milli_val(u, i + 1, acc * 10 + digit_val(u[i]))
    } else {
        acc * 1000 + frac_val(u, i + 1)
    }
}

/// The fraction digits in thousandths: padded to three places.
pub open spec fn frac_val(u: Seq<u8>, i: int) -> int {
    if u.len() - i == 1 {
        digit_val(u[i]) * 100
    } else if u.len() - i == 2 {
        digit_val(u[i]) * 100 + digit_val(u[i + 1]) * 10
    } else {
        digit_val(u[i]) * 100 + digit_val(u[i + 1]) * 10 + digit_val(u[i + 2])
    }
}

/// The signed value in thousandths.
pub open spec fn value_of(v: Seq<u8>) -> int {
    if v.len() > 0 && v[0] == 45 {
        -milli_val(v.subrange(1, v.len() as int), 0, 0)
    } else {
        milli_val(v, 0, 0)
    }
}

/// Reads the date field at `bytes[s .. s + 10]`.
fn parse_date(bytes: &Vec<u8>, s: usize) -> (r: Option<Date>)
    requires
        s + 10 <= bytes@.len(),
    ensures
        r is Some <==> date_ok(bytes@.subrange(s as int, s as int + 10)),
        r matches Some(d) ==> d == date_of(bytes@.subrange(s as int, s as int + 10))
            && d.valid(),
{
    let ghost dd = bytes@.subrange(s as int, s as int + 10);
    let total = bytes.len();
    let b0 = bytes[s];
    let b1 = bytes[s + 1];
    let b2 = bytes[s + 2];
    let b3 = bytes[s + 3];
    let b5 = bytes[s + 5];
    let b6 = bytes[s + 6];
    let b8 = bytes[s + 8];
    let b9 = bytes[s + 9];
    if !(48 <= b0 && b0 <= 57 && 48 <= b1 && b1 <= 57 && 48 <= b2 && b2 <= 57 && 48 <= b3 && b3
        <= 57) {
        return None;
    }
    if bytes[s + 4] != 45 || bytes[s + 7] != 45 {
        return None;
    }
    if !(48 <= b5 && b5 <= 57 && 48 <= b6 && b6 <= 57 && 48 <= b8 && b8 <= 57 && 48 <= b9 && b9
        <= 57) {
        return None;
    }
    let year: i32 = (((b0 - 48) as i32 * 10 + (b1 - 48) as i32) * 10 + (b2 - 48) as i32) * 10 + (
    b3 - 48) as i32;
    let month: u8 = (b5 - 48) * 10 + (b6 - 48);
    let day: u8 = (b8 - 48) * 10 + (b9 - 48);
    if month < 1 || month > 12 {
        return None;
    }
    if day < 1 || day > month_days(year, month) {
        return None;
    }
    Some(Date { year, month, day })
}

/// Reads the value field at `bytes[s .. e]`, in thousandths.
fn parse_value(bytes: &Vec<u8>, s: usize, e: usize) -> (r: Option<i64>)
    requires
        s <= e <= bytes@.len(),
    ensures
        r is Some <==> value_ok(bytes@.subrange(s as int, e as int)),
        r matches Some(x) ==> x == value_of(bytes@.subrange(s as int, e as int)),
{
    let ghost v = bytes@.subrange(s as int, e as int);
    let neg = s < e && bytes[s] == 45;
    let us: usize = if neg {
        s + 1
    } else {
        s
    };
    let ghost u = bytes@.subrange(us as int, e as int);
    proof {
        if neg {
            assert(v.subrange(1, v.len() as int) =~= u);
        } else {
            assert(v =~= u);
        }
    }
    proof {
        lemma_pow10_values();
    }
    let mut i: usize = us;
    let mut acc: i64 = 0;
    let mut n: usize = 0;
    while i < e && 48 <= bytes[i] && bytes[i] <= 57
        invariant
            us <= i <= e <= bytes@.len(),
            n == i - us,
            u == bytes@.subrange(us as int, e as int),
            num_ok(u, 0, 0) == num_ok(u, i - us, n as int),
            n <= 12 ==> acc == digits_acc(u, i - us) && 0 <= acc < pow10(n as nat),
            pow10(12) == 1000000000000,
            milli_val(u, 0, 0) == milli_val(u, i - us, digits_acc(u, i - us)),
        decreases e - i,
    {
        let d = bytes[i] - 48;
        proof {
            if n < 12 {
                lemma_pow10_unfold(n as nat);
                lemma_pow10_le((n + 1) as nat, 12);
            }
        }
        if n < 12 {
            acc = acc * 10 + (d as i64);
        }
        n = n + 1;
        i = i + 1;
        proof {
            assert(u[i - us - 1] == bytes@[i - 1]);
            lemma_digits_acc_step(u, i - us);
        }
    }
    proof {
        if n <= 12 {
            lemma_pow10_le(n as nat, 12);
        }
    }
    proof {
        assert(i < e ==> u[i - us] == bytes@[i as int]);
    }
    if n == 0 || n > 12 {
        proof {
            if i >= e {
                assert(!num_ok(u, i - us, n as int));
            } else {
                assert(!is_digit(u[i - us]));
                assert(!num_ok(u, i - us, n as int));
            }
        }
        return None;
    }
    let whole: i64 = acc * 1000;
    if i == e {
        return Some(
            if neg {
                -whole
            } else {
                whole
            },
        );
    }
    if bytes[i] != 46 {
        return None;
    }
    // fraction: one to three digits to the end
    let cnt = e - i - 1;
    if cnt < 1 || cnt > 3 {
        return None;
    }
    let f1 = bytes[i + 1];
    if !(48 <= f1 && f1 <= 57) {
        return None;
    }
    let mut frac: i64 = (f1 - 48) as i64 * 100;
    if cnt >= 2 {
        let f2 = bytes[i + 2];
        if !(48 <= f2 && f2 <= 57) {
            return None;
        }
        frac = frac + (f2 - 48) as i64 * 10;
    }
    if cnt == 3 {
        let f3 = bytes[i + 3];
        if !(48 <= f3 && f3 <= 57) {
            return None;
        }
        frac = frac + (f3 - 48) as i64;
    }
    proof {
        assert forall|j: int| i - us + 1 <= j < u.len() implies is_digit(#[trigger] u[j]) by {
            assert(u[j] == bytes@[us + j]);
        }
        assert(frac_ok(u, i - us + 1));
        assert(frac as int == frac_val(u, i - us + 1));
    }
    Some(
        if neg {
            -(whole + frac)
        } else {
            whole + frac
        },
    )
}

/// The integer-digit accumulator after the first `i` bytes of `u`:
/// what the scan has read so far.
pub open spec fn digits_acc(u: Seq<u8>, i: int) -> int
    decreases i,
{
    if i <= 0 {
        0
    } else {
        digits_acc(u, i - 1) * 10 + digit_val(u[i - 1])
    }
}

proof fn lemma_digits_acc_step(u: Seq<u8>, i: int)
    requires
        1 <= i <= u.len(),
    ensures
        digits_acc(u, i) == digits_acc(u, i - 1) * 10 + digit_val(u[i - 1]),
{
}

/// The position of the first newline at or after `i`, or the length.
pub open spec fn find_nl(s: Seq<u8>, i: nat) -> nat
    decreases s.len() - i,
{
    if i >= s.len() {
        s.len()
    } else if s[i as int] == 10 {
        i
    } else {
        find_nl(s, i + 1)
    }
}

/// The input split at newlines; no line keeps its newline.
pub open spec fn spec_lines(s: Seq<u8>) -> Seq<Seq<u8>>
    decreases s.len(),
{
    if s.len() == 0 {
        Seq::empty()
    } else {
        let k = find_nl(s, 0);
        if k >= s.len() {
            seq![s]
        } else {
            seq![s.take(k as int)] + spec_lines(s.skip(k as int + 1))
        }
    }
}

/// One data row: the date, a tab, the value.
pub open spec fn line_ok(l: Seq<u8>) -> bool {
    &&& l.len() >= 12
    &&& date_ok(l.subrange(0, 10))
    &&& l[10] == 9
    &&& value_ok(l.subrange(11, l.len() as int))
}

/// The point a data row spells.
pub open spec fn line_val(l: Seq<u8>) -> (Date, i64) {
    (date_of(l.subrange(0, 10)), value_of(l.subrange(11, l.len() as int)) as i64)
}

/// The points of the given lines: empty lines are skipped, and one
/// malformed row spoils the whole file.
pub open spec fn rows_of(ls: Seq<Seq<u8>>) -> Option<Seq<(Date, i64)>>
    decreases ls.len(),
{
    if ls.len() == 0 {
        Some(Seq::empty())
    } else if ls[0].len() == 0 {
        rows_of(ls.skip(1))
    } else if line_ok(ls[0]) {
        match rows_of(ls.skip(1)) {
            Some(rest) => Some(seq![line_val(ls[0])] + rest),
            None => None,
        }
    } else {
        None
    }
}

/// What the whole file parses to: the rows after the header line.
pub open spec fn spec_parse(s: Seq<u8>) -> Option<Seq<(Date, i64)>> {
    let ls = spec_lines(s);
    if ls.len() == 0 {
        Some(Seq::empty())
    } else {
        rows_of(ls.skip(1))
    }
}

/// The first newline at or after `from`, or the end of the input.
fn scan_nl(bytes: &Vec<u8>, from: usize) -> (r: usize)
    requires
        from <= bytes@.len(),
    ensures
        from <= r <= bytes@.len(),
        r - from == find_nl(bytes@.skip(from as int), 0),
        r < bytes@.len() ==> bytes@[r as int] == 10,
{
    let len = bytes.len();
    let mut j = from;
    while j < len && bytes[j] != 10
        invariant
            from <= j <= len,
            len == bytes@.len(),
            find_nl(bytes@.skip(from as int), 0) == find_nl(
                bytes@.skip(from as int),
                (j - from) as nat,
            ),
        decreases len - j,
    {
        proof {
            assert(bytes@.skip(from as int)[j - from] == bytes@[j as int]);
        }
        j = j + 1;
    }
    proof {
        let s = bytes@.skip(from as int);
        if j < len {
            assert(s[j - from] == bytes@[j as int]);
        }
    }
    j
}

/// One data row at `bytes[ls .. le]`.
fn parse_line(bytes: &Vec<u8>, ls: usize, le: usize) -> (r: Option<(Date, i64)>)
    requires
        ls <= le <= bytes@.len(),
    ensures
        r is Some <==> line_ok(bytes@.subrange(ls as int, le as int)),
        r matches Some(p) ==> p == line_val(bytes@.subrange(ls as int, le as int)),
{
    let ghost l = bytes@.subrange(ls as int, le as int);
    if le - ls < 12 {
        return None;
    }
    proof {
        assert(l.subrange(0, 10) =~= bytes@.subrange(ls as int, ls as int + 10));
        assert(l.subrange(11, l.len() as int) =~= bytes@.subrange(ls as int + 11, le as int));
        assert(l[10] == bytes@[ls as int + 10]);
    }
    let d = parse_date(bytes, ls);
    if d.is_none() {
        return None;
    }
    if bytes[ls + 10] != 9 {
        return None;
    }
    let v = parse_value(bytes, ls + 11, le);
    match (d, v) {
        (Some(dd), Some(vv)) => Some((dd, vv)),
        _ => None,
    }
}

/// Parses a whole dataset file: the rows after the header line, in
/// order, each as its date and its value in thousandths.  `None`
/// exactly when some row is malformed.
pub fn points_from_tsv(bytes: &Vec<u8>) -> (r: Option<Vec<(Date, i64)>>)
    ensures
        r is Some <==> spec_parse(bytes@) is Some,
        r matches Some(v) ==> Some(v@) == spec_parse(bytes@),
{
    let len = bytes.len();
    let mut out: Vec<(Date, i64)> = Vec::new();
    let k0 = scan_nl(bytes, 0);
    let mut pos: usize = if k0 < len {
        k0 + 1
    } else {
        len
    };
    proof {
        assert(bytes@.skip(0) =~= bytes@);
        if len > 0 {
            let s = bytes@;
            let k = find_nl(s, 0);
            if k < s.len() {
                assert(spec_lines(s) == seq![s.take(k as int)] + spec_lines(s.skip(k as int + 1)));
                assert(spec_lines(s).skip(1) =~= spec_lines(s.skip(k as int + 1)));
                assert(s.skip(k as int + 1) =~= bytes@.skip(pos as int));
            } else {
                assert(spec_lines(s) == seq![s]);
                assert(spec_lines(s).skip(1) =~= Seq::<Seq<u8>>::empty());
                assert(bytes@.skip(pos as int) =~= Seq::<u8>::empty());
            }
        }
        assert(out@ =~= Seq::<(Date, i64)>::empty());
    }
    while pos < len
        invariant
            pos <= len,
            len == bytes@.len(),
            match rows_of(spec_lines(bytes@.skip(pos as int))) {
                Some(rest) => spec_parse(bytes@) == Some(out@ + rest),
                None => spec_parse(bytes@) is None,
            },
        decreases len - pos,
    {
        let ghost srem = bytes@.skip(pos as int);
        let k = scan_nl(bytes, pos);
        proof {
            assert(srem.len() > 0);
        }
        if k == pos {
            // an empty line: skipped, as the reader skips blank records
            proof {
                assert(srem[0] == bytes@[pos as int]);
                assert(find_nl(srem, 0) == 0);
                assert(spec_lines(srem) == seq![srem.take(0)] + spec_lines(srem.skip(1)));
                assert(srem.take(0).len() == 0);
                assert((seq![srem.take(0)] + spec_lines(srem.skip(1))).skip(1) =~= spec_lines(
                    srem.skip(1),
                ));
                assert(rows_of(spec_lines(srem)) == rows_of(spec_lines(srem.skip(1))));
                assert(srem.skip(1) =~= bytes@.skip(pos as int + 1));
            }
            pos = k + 1;
        } else {
            let ghost kk = (k - pos) as nat;
            proof {
                if k < len {
                    assert(spec_lines(srem) == seq![srem.take(kk as int)] + spec_lines(
                        srem.skip(kk as int + 1),
                    ));
                } else {
                    assert(find_nl(srem, 0) == srem.len());
                    assert(spec_lines(srem) == seq![srem]);
                }
                assert(srem.take(kk as int) =~= bytes@.subrange(pos as int, k as int));
                assert(srem =~= bytes@.subrange(pos as int, len as int));
            }
            let p = parse_line(bytes, pos, k);
            match p {
                None => {
                    proof {
                        if k < len {
                            let ls = spec_lines(srem);
                            assert(ls[0] == srem.take(kk as int));
                            assert(ls[0].len() > 0);
                            assert(!line_ok(ls[0]));
                            assert(rows_of(ls) is None);
                        } else {
                            let ls = spec_lines(srem);
                            assert(ls[0] == srem);
                            assert(ls[0].len() > 0);
                            assert(!line_ok(ls[0]));
                            assert(rows_of(ls) is None);
                        }
                    }
                    return None;
                },
                Some(pt) => {
                    proof {
                        let ls = spec_lines(srem);
                        let rest_lines: Seq<Seq<u8>> = if k < len {
                            spec_lines(srem.skip(kk as int + 1))
                        } else {
                            Seq::empty()
                        };
                        assert(ls.skip(1) =~= rest_lines);
                        if k < len {
                            assert(srem.skip(kk as int + 1) =~= bytes@.skip(k as int + 1));
                        }
                        assert(ls[0].len() > 0 && line_ok(ls[0]) && line_val(ls[0]) == pt);
                        match rows_of(rest_lines) {
                            Some(rest) => {
                                assert(rows_of(ls) == Some(seq![pt] + rest));
                                assert(out@ + (seq![pt] + rest) =~= out@.push(pt) + rest);
                            },
                            None => {
                                assert(rows_of(ls) is None);
                            },
                        }
                    }
                    out.push(pt);
                    pos = if k < len {
                        k + 1
                    } else {
                        len
                    };
                    proof {
                        if pos == len {
                            assert(bytes@.skip(len as int) =~= Seq::<u8>::empty());
                        }
                    }
                },
            }
        }
    }
    proof {
        assert(bytes@.skip(len as int) =~= Seq::<u8>::empty());
        assert(out@ + Seq::<(Date, i64)>::empty() =~= out@);
    }
    Some(out)
}

} // verus!
