//! Coordinates and the record readings shared by the document converters.

use vstd::prelude::*;
use crate::altium::record::{spec_get_fixed, spec_get_i64, AltiumRecord, NM_PER_MIL};
use crate::text::{dec_chars, spec_dec, string_from};

verus! {

/// A point in nanometres.
#[derive(Debug, Clone, Copy, PartialEq, Eq, Default, Structural)]
pub struct Point {
    pub x: i64,
    pub y: i64,
}

/// A coordinate property in nanometres, or `default` when it is absent or
/// not a decimal.
pub open spec fn spec_coord_or(m: Map<Seq<char>, Seq<char>>, key: Seq<char>, default: i64) -> i64 {
    match spec_get_fixed(m, key, NM_PER_MIL as nat) {
        Some(v) => v,
        None => default,
    }
}

/// A property in thousandths (angles), or `default`.
pub open spec fn spec_milli_or(m: Map<Seq<char>, Seq<char>>, key: Seq<char>, default: i64) -> i64 {
    match spec_get_fixed(m, key, 1000) {
        Some(v) => v,
        None => default,
    }
}

/// The coordinate `key`, or `default`.
pub fn coord_or(rec: &AltiumRecord, key: &str, default: i64) -> (r: i64)
    ensures
        r == spec_coord_or(rec@, key@, default),
{
    match rec.get_coord_nm(key) {
        Some(v) => v,
        None => default,
    }
}

/// The property `key` in thousandths, or `default`.
pub fn milli_or(rec: &AltiumRecord, key: &str, default: i64) -> (r: i64)
    ensures
        r == spec_milli_or(rec@, key@, default),
{
    match rec.get_milli(key) {
        Some(v) => v,
        None => default,
    }
}

/// `a + b`, saturated at the bounds of `i64`.
pub open spec fn sat_add(a: i64, b: i64) -> i64 {
    if a + b > i64::MAX {
        i64::MAX
    } else if a + b < i64::MIN {
        i64::MIN
    } else {
        (a + b) as i64
    }
}

/// `a - b`, saturated at the bounds of `i64`.
pub open spec fn sat_sub(a: i64, b: i64) -> i64 {
    if a - b > i64::MAX {
        i64::MAX
    } else if a - b < i64::MIN {
        i64::MIN
    } else {
        (a - b) as i64
    }
}

/// Saturating addition.
pub fn saturating_add(a: i64, b: i64) -> (r: i64)
    ensures
        r == sat_add(a, b),
{
    let w = a as i128 + b as i128;
    if w > i64::MAX as i128 {
        i64::MAX
    } else if w < i64::MIN as i128 {
        i64::MIN
    } else {
        w as i64
    }
}

/// Saturating subtraction.
pub fn saturating_sub(a: i64, b: i64) -> (r: i64)
    ensures
        r == sat_sub(a, b),
{
    let w = a as i128 - b as i128;
    if w > i64::MAX as i128 {
        i64::MAX
    } else if w < i64::MIN as i128 {
        i64::MIN
    } else {
        w as i64
    }
}

/// The key `prefix` followed by the decimal spelling of `i` (`X1`, `Y12`).
pub open spec fn indexed_key(prefix: char, i: nat) -> Seq<char> {
    seq![prefix] + spec_dec(i)
}

/// The count property `LOCATIONCOUNT` as a record gives it: the
/// integer value (2 when absent or unreadable) converted to `usize`.
pub open spec fn spec_location_count(m: Map<Seq<char>, Seq<char>>) -> usize {
    match spec_get_i64(m, "LOCATIONCOUNT"@) {
        Some(v) => v as usize,
        None => 2,
    }
}

/// The points `(Xi, Yi)` for `i` in `1..=count` whose two coordinates are
/// both present and readable, in order.
pub open spec fn spec_points(m: Map<Seq<char>, Seq<char>>, count: nat) -> Seq<Point>
    decreases count,
{
    if count == 0 {
        Seq::empty()
    } else {
        let prev = spec_points(m, (count - 1) as nat);
        match (
            spec_get_fixed(m, indexed_key('X', count), NM_PER_MIL as nat),
            spec_get_fixed(m, indexed_key('Y', count), NM_PER_MIL as nat),
        ) {
            (Some(x), Some(y)) => prev.push(Point { x, y }),
            _ => prev,
        }
    }
}

/// The consecutive pairs of a point list, as `windows(2)` yields them.
pub open spec fn spec_pairs(p: Seq<Point>) -> Seq<(Point, Point)> {
    if p.len() < 2 {
        Seq::empty()
    } else {
        Seq::new((p.len() - 1) as nat, |i: int| (p[i], p[i + 1]))
    }
}

fn key_for(prefix: char, i: u64) -> (s: String)
    ensures
        s@ == indexed_key(prefix, i as nat),
{
    let digits = dec_chars(i);
    let mut v: Vec<char> = Vec::new();
    v.push(prefix);
    let mut j: usize = 0;
    while j < digits.len()
        invariant
            j <= digits.len(),
            v@ == seq![prefix] + digits@.take(j as int),
        decreases digits.len() - j,
    {
        v.push(digits[j]);
        assert(digits@.take(j + 1) =~= digits@.take(j as int).push(digits@[j as int]));
        assert(seq![prefix] + digits@.take(j + 1) =~= (seq![prefix] + digits@.take(j as int)).push(
            digits@[j as int],
        ));
        j += 1;
    }
    assert(digits@.take(digits.len() as int) =~= digits@);
    string_from(&v)
}

/// The points `(Xi, Yi)` of `rec` for `i` in `1..=count`.
pub fn points_for(rec: &AltiumRecord, count: usize) -> (r: Vec<Point>)
    ensures
        r@ == spec_points(rec@, count as nat),
{
    let mut pts: Vec<Point> = Vec::new();
    let mut k: usize = 0;
    while k < count
        invariant
            k <= count,
            pts@ == spec_points(rec@, k as nat),
        decreases count - k,
    {
        let i = (k + 1) as u64;
        let xk = key_for('X', i);
        let yk = key_for('Y', i);
        let xo = rec.get_coord_nm(xk.as_str());
        let yo = rec.get_coord_nm(yk.as_str());
        match (xo, yo) {
            (Some(x), Some(y)) => {
                pts.push(Point { x, y });
            },
            _ => {},
        }
        k += 1;
    }
    pts
}

/// A coordinate property holding plain digits `d` is `d` mils, read in
/// nanometres (25 400 nm per mil); an angle property holding `d` is `d`
/// degrees in thousandths; an absent property gives the default.
pub proof fn law_coordinates_are_mils(m: Map<Seq<char>, Seq<char>>, key: Seq<char>, d: Seq<char>, default: i64)
    requires
        d.len() > 0,
        crate::num::all_digits(d),
        crate::num::digits_value(d) * 25400 <= 0x7fff_ffff_ffff_ffff,
    ensures
        m.contains_key(key) && m[key] == d ==> spec_coord_or(m, key, default) == crate::num::digits_value(d)
            * 25400,
        m.contains_key(key) && m[key] == d ==> spec_milli_or(m, key, default) == crate::num::digits_value(d)
            * 1000,
        !m.contains_key(key) ==> spec_coord_or(m, key, default) == default,
        !m.contains_key(key) ==> spec_milli_or(m, key, default) == default,
{
    crate::num::law_parse_fixed_integer(d, 25400);
    crate::num::law_parse_fixed_integer(d, 1000);
}

/// The segments of a polyline join each point to the next: one fewer
/// than the points (none for fewer than two), the `i`-th from point `i`
/// to point `i + 1`.
pub proof fn law_pairs_join_consecutive_points(p: Seq<Point>)
    ensures
        p.len() < 2 ==> spec_pairs(p).len() == 0,
        p.len() >= 2 ==> spec_pairs(p).len() == p.len() - 1,
        forall|i: int| 0 <= i < p.len() - 1 ==> #[trigger] spec_pairs(p)[i] == (p[i], p[i + 1]),
{
}

} // verus!
