//! Multi-channel rooms: which footprint of a target channel corresponds
//! to which footprint of the source channel, and what a format copy
//! carries over.

use vstd::prelude::*;
use crate::text::{chars_of, str_eq, string_from};

verus! {

/// Which elements a room format copy replicates.
#[derive(Debug, Clone, Copy, PartialEq, Eq, Structural)]
pub struct RoomCopyOptions {
    pub copy_footprint_placement: bool,
    pub copy_routing_traces: bool,
    pub copy_vias: bool,
    pub copy_zones: bool,
}

impl Default for RoomCopyOptions {
    /// Every element is copied.
    fn default() -> (r: Self)
        ensures
            r.copy_footprint_placement && r.copy_routing_traces && r.copy_vias && r.copy_zones,
    {
        RoomCopyOptions {
            copy_footprint_placement: true,
            copy_routing_traces: true,
            copy_vias: true,
            copy_zones: true,
        }
    }
}

/// Whether `i` is the position of the last `_` in `s`.
pub open spec fn is_last_underscore(s: Seq<char>, i: int) -> bool {
    0 <= i < s.len() && s[i] == '_' && forall|j: int| i < j < s.len() ==> s[j] != '_'
}

/// A designator without its channel suffix: everything before the last
/// `_`, or the whole designator when it has none (`R1_CH2` gives `R1`).
pub open spec fn spec_strip_channel_suffix(reference: Seq<char>) -> Seq<char> {
    if exists|i: int| is_last_underscore(reference, i) {
        reference.take(choose|i: int| is_last_underscore(reference, i))
    } else {
        reference
    }
}

/// Strips the channel suffix of a designator (see
/// [`spec_strip_channel_suffix`]).
pub fn strip_channel_suffix(reference: &str) -> (r: String)
    ensures
        r@ == spec_strip_channel_suffix(reference@),
{
    let cs = chars_of(reference);
    let mut i: usize = cs.len();
    while i > 0
        invariant
            i <= cs.len(),
            cs@ == reference@,
            forall|j: int| i <= j < cs.len() ==> cs@[j] != '_',
        decreases i,
    {
        if cs[i - 1] == '_' {
            let ghost k = (i - 1) as int;
            assert(is_last_underscore(reference@, k));
            let ghost w = choose|w: int| is_last_underscore(reference@, w);
            assert(w == k) by {
                if w < k {
                    assert(reference@[k] != '_');
                } else if w > k {
                    assert(reference@[w] != '_');
                }
            }
            let mut out: Vec<char> = Vec::new();
            let mut j: usize = 0;
            while j < i - 1
                invariant
                    j <= i - 1,
                    i <= cs.len(),
                    out@ == cs@.take(j as int),
                decreases i - 1 - j,
            {
                out.push(cs[j]);
                j += 1;
                assert(out@ =~= cs@.take(j as int));
            }
            return string_from(&out);
        }
        i -= 1;
    }
    assert(!exists|w: int| is_last_underscore(reference@, w));
    string_from(&cs)
}

/// The board position of the last target footprint whose designator has
/// the base `base`, if any.
pub open spec fn last_with_base(targets: Seq<(usize, Seq<char>)>, base: Seq<char>) -> Option<usize>
    decreases targets.len(),
{
    if targets.len() == 0 {
        None
    } else if spec_strip_channel_suffix(targets.last().1) == base {
        Some(targets.last().0)
    } else {
        last_with_base(targets.drop_last(), base)
    }
}

/// Pairs each source footprint with the target-room footprint of the same
/// base designator: for each source designator, the board position of the
/// last target footprint (given as board position and designator, in
/// board order) with that base, or `None`.
pub fn match_channel_footprints(sources: &Vec<String>, targets: &Vec<(usize, String)>) -> (r: Vec<
    Option<usize>,
>)
    ensures
        r@.len() == sources@.len(),
        forall|k: int|
            0 <= k < sources@.len() ==> #[trigger] r@[k] == last_with_base(
                targets@.map_values(|t: (usize, String)| (t.0, t.1@)),
                spec_strip_channel_suffix(sources@[k]@),
            ),
{
    let ghost tv = targets@.map_values(|t: (usize, String)| (t.0, t.1@));
    let mut bases: Vec<String> = Vec::new();
    let mut t: usize = 0;
    while t < targets.len()
        invariant
            t <= targets.len(),
            bases@.len() == t,
            forall|q: int| 0 <= q < t ==> #[trigger] bases@[q]@ == spec_strip_channel_suffix(targets@[q].1@),
        decreases targets.len() - t,
    {
        bases.push(strip_channel_suffix(targets[t].1.as_str()));
        t += 1;
    }
    let mut out: Vec<Option<usize>> = Vec::new();
    let mut k: usize = 0;
    while k < sources.len()
        invariant
            k <= sources.len(),
            out@.len() == k,
            bases@.len() == targets@.len(),
            tv == targets@.map_values(|t: (usize, String)| (t.0, t.1@)),
            forall|q: int| 0 <= q < bases@.len() ==> #[trigger] bases@[q]@ == spec_strip_channel_suffix(targets@[q].1@),
            forall|q: int|
                0 <= q < k ==> #[trigger] out@[q] == last_with_base(
                    tv,
                    spec_strip_channel_suffix(sources@[q]@),
                ),
        decreases sources.len() - k,
    {
        let base = strip_channel_suffix(sources[k].as_str());
        let mut found: Option<usize> = None;
        let mut j: usize = targets.len();
        assert(tv.take(targets.len() as int) =~= tv);
        while j > 0
            invariant_except_break
                found is None,
            invariant
                j <= targets.len(),
                bases@.len() == targets@.len(),
                tv == targets@.map_values(|t: (usize, String)| (t.0, t.1@)),
                forall|q: int| 0 <= q < bases@.len() ==> #[trigger] bases@[q]@ == spec_strip_channel_suffix(targets@[q].1@),
                last_with_base(tv, base@) == last_with_base(tv.take(j as int), base@),
            ensures
                found == last_with_base(tv, base@),
            decreases j,
        {
            let ghost pre = tv.take(j as int);
            assert(pre.last() == tv[j - 1]);
            assert(tv[j - 1] == (targets@[j - 1].0, targets@[j - 1].1@));
            if str_eq(bases[j - 1].as_str(), base.as_str()) {
                found = Some(targets[j - 1].0);
                break;
            }
            assert(pre.drop_last() =~= tv.take(j - 1));
            j -= 1;
        }
        out.push(found);
        k += 1;
    }
    out
}

/// Stripping a designator `base_suffix` whose suffix holds no `_` gives
/// `base` back; a designator with no `_` is kept whole.
pub proof fn law_strip_channel_suffix(base: Seq<char>, suffix: Seq<char>)
    requires
        forall|j: int| 0 <= j < suffix.len() ==> suffix[j] != '_',
    ensures
        spec_strip_channel_suffix(base + seq!['_'] + suffix) == base,
        (forall|j: int| 0 <= j < base.len() ==> base[j] != '_') ==> spec_strip_channel_suffix(base)
            == base,
{
    let s = base + seq!['_'] + suffix;
    let p = base.len() as int;
    assert(is_last_underscore(s, p)) by {
        assert forall|j: int| p < j < s.len() implies s[j] != '_' by {
            assert(s[j] == suffix[j - p - 1]);
        }
    }
    let q = choose|i: int| is_last_underscore(s, i);
    assert(q == p) by {
        if q < p {
            assert(s[p] == '_');
        } else if q > p {
            assert(s[q] == suffix[q - p - 1]);
        }
    }
    assert(s.take(p) =~= base);
    if forall|j: int| 0 <= j < base.len() ==> base[j] != '_' {
        if exists|i: int| is_last_underscore(base, i) {
            let i = choose|i: int| is_last_underscore(base, i);
            assert(base[i] == '_');
        }
    }
}

/// The match for a base designator is the position of the last target
/// whose designator has that base, and there is none exactly when no
/// target has it.
pub proof fn law_last_with_base(targets: Seq<(usize, Seq<char>)>, base: Seq<char>)
    ensures
        last_with_base(targets, base) is None <==> forall|i: int|
            0 <= i < targets.len() ==> spec_strip_channel_suffix(#[trigger] targets[i].1) != base,
        last_with_base(targets, base) matches Some(p) ==> exists|i: int|
            0 <= i < targets.len() && #[trigger] targets[i].0 == p && spec_strip_channel_suffix(
                targets[i].1,
            ) == base && forall|j: int|
                i < j < targets.len() ==> spec_strip_channel_suffix(#[trigger] targets[j].1) != base,
    decreases targets.len(),
{
    if targets.len() > 0 {
        let t0 = targets.drop_last();
        law_last_with_base(t0, base);
        let n = targets.len() - 1;
        assert forall|i: int| 0 <= i < t0.len() implies #[trigger] t0[i] == targets[i] by {}
        if spec_strip_channel_suffix(targets[n].1) == base {
            assert(targets[n].0 == last_with_base(targets, base)->0);
        } else {
            if last_with_base(targets, base) is None {
                assert forall|i: int| 0 <= i < targets.len() implies spec_strip_channel_suffix(
                    #[trigger] targets[i].1,
                ) != base by {
                    if i < n {
                        assert(t0[i] == targets[i]);
                    }
                }
            } else {
                let p = last_with_base(targets, base)->0;
                let i = choose|i: int|
                    0 <= i < t0.len() && #[trigger] t0[i].0 == p && spec_strip_channel_suffix(t0[i].1)
                        == base && forall|j: int|
                        i < j < t0.len() ==> spec_strip_channel_suffix(#[trigger] t0[j].1) != base;
                assert(targets[i] == t0[i]);
                assert forall|j: int| i < j < targets.len() implies spec_strip_channel_suffix(
                    #[trigger] targets[j].1,
                ) != base by {
                    if j < n {
                        assert(t0[j] == targets[j]);
                    }
                }
            }
            if forall|i: int| 0 <= i < targets.len() ==> spec_strip_channel_suffix(#[trigger] targets[i].1) != base {
                assert forall|i: int| 0 <= i < t0.len() implies spec_strip_channel_suffix(
                    #[trigger] t0[i].1,
                ) != base by {
                    assert(t0[i] == targets[i]);
                }
            }
        }
    }
}

} // verus!
