//! Altium pipe-delimited property records (`|KEY=VALUE|KEY=VALUE|`).

use vstd::prelude::*;
use vstd::std_specs::cmp::PartialEqSpecImpl;
use crate::num::{is_positive_number, parse_fixed, parse_i64, spec_parse_fixed, spec_parse_i64, spec_positive_number};
use crate::text::{
    chars_of, find_char, spec_find, spec_split, spec_to_uppercase, spec_trim, split_chars,
    str_eq, string_from, to_uppercase, trim_chars,
};

verus! {

/// Nanometres per mil: Altium stores coordinates in mils.
pub const NM_PER_MIL: u64 = 25400;

/// A parsed Altium property record. Properties are kept in insertion
/// order; a later entry for a key replaces an earlier one.
#[derive(Debug, Clone)]
pub struct AltiumRecord {
    pub properties: Vec<(String, String)>,
}

/// The key/value map that a list of entries stands for, later entries
/// replacing earlier ones.
pub open spec fn entries_map(e: Seq<(String, String)>) -> Map<Seq<char>, Seq<char>>
    decreases e.len(),
{
    if e.len() == 0 {
        Map::empty()
    } else {
        entries_map(e.drop_last()).insert(e.last().0@, e.last().1@)
    }
}

/// Whether no two entries of a list share a key: each key has one entry.
pub open spec fn keys_distinct(e: Seq<(String, String)>) -> bool {
    forall|i: int, j: int| 0 <= i < j < e.len() ==> e[i].0@ != e[j].0@
}

impl View for AltiumRecord {
    type V = Map<Seq<char>, Seq<char>>;

    open spec fn view(&self) -> Map<Seq<char>, Seq<char>> {
        entries_map(self.properties@)
    }
}

/// The property that one `KEY=VALUE` item contributes: the key is trimmed
/// and upper-cased, the value trimmed; an item without `=` contributes
/// nothing.
pub open spec fn item_entry(item: Seq<char>) -> Option<(Seq<char>, Seq<char>)> {
    match spec_find(item, '=') {
        Some(p) => Some((spec_to_uppercase(spec_trim(item.take(p))), spec_trim(item.skip(p + 1)))),
        None => None,
    }
}

/// The properties that a list of items defines, later items replacing
/// earlier ones.
pub open spec fn items_map(items: Seq<Seq<char>>) -> Map<Seq<char>, Seq<char>>
    decreases items.len(),
{
    if items.len() == 0 {
        Map::empty()
    } else {
        match item_entry(items.last()) {
            Some(kv) => items_map(items.drop_last()).insert(kv.0, kv.1),
            None => items_map(items.drop_last()),
        }
    }
}

/// The properties of a pipe-delimited record string.
pub open spec fn spec_from_pipe(s: Seq<char>) -> Map<Seq<char>, Seq<char>> {
    items_map(spec_split(s, '|'))
}

/// The value of a property as an integer, as `get_i64` reads it.
pub open spec fn spec_get_i64(m: Map<Seq<char>, Seq<char>>, key: Seq<char>) -> Option<i64> {
    if m.contains_key(key) {
        spec_parse_i64(m[key])
    } else {
        None
    }
}

/// The value of a property as a decimal scaled by `unit`.
pub open spec fn spec_get_fixed(m: Map<Seq<char>, Seq<char>>, key: Seq<char>, unit: nat) -> Option<
    i64,
> {
    if m.contains_key(key) {
        spec_parse_fixed(m[key], unit)
    } else {
        None
    }
}

/// Whether a property reads as a positive number (see
/// [`spec_positive_number`]).
pub open spec fn spec_get_positive(m: Map<Seq<char>, Seq<char>>, key: Seq<char>) -> bool {
    m.contains_key(key) && spec_positive_number(m[key])
}

/// Whether a property holds one of the true spellings `TRUE`, `true`,
/// `1`, `T`.
pub open spec fn spec_get_bool(m: Map<Seq<char>, Seq<char>>, key: Seq<char>) -> bool {
    m.contains_key(key) && (m[key] == seq!['T', 'R', 'U', 'E'] || m[key] == seq![
        't',
        'r',
        'u',
        'e',
    ] || m[key] == seq!['1'] || m[key] == seq!['T'])
}

impl Default for AltiumRecord {
    /// An empty record.
    fn default() -> (r: Self)
        ensures
            r@ == Map::<Seq<char>, Seq<char>>::empty(),
    {
        AltiumRecord::new()
    }
}

impl AltiumRecord {
    /// An empty record.
    pub fn new() -> (r: Self)
        ensures
            r@ == Map::<Seq<char>, Seq<char>>::empty(),
    {
        AltiumRecord { properties: Vec::new() }
    }

    /// The value of property `key`.
    pub fn get(&self, key: &str) -> (r: Option<&str>)
        ensures
            match r {
                Some(v) => self@.contains_key(key@) && v@ == self@[key@],
                None => !self@.contains_key(key@),
            },
    {
        let mut i: usize = self.properties.len();
        while i > 0
            invariant
                i <= self.properties.len(),
                forall|j: int|
                    i <= j < self.properties.len() ==> #[trigger] self.properties@[j].0@ != key@,
            decreases i,
        {
            if str_eq(self.properties[i - 1].0.as_str(), key) {
                proof {
                    lemma_entries_map_last_match(self.properties@, i - 1, key@);
                }
                return Some(self.properties[i - 1].1.as_str());
            }
            i -= 1;
        }
        proof {
            lemma_entries_map_absent(self.properties@, key@);
        }
        None
    }

    /// The value of property `key` read as an `i64`.
    pub fn get_i64(&self, key: &str) -> (r: Option<i64>)
        ensures
            r == spec_get_i64(self@, key@),
    {
        match self.get(key) {
            Some(v) => {
                let c = chars_of(v);
                parse_i64(&c)
            },
            None => None,
        }
    }

    /// The value of property `key` read as a decimal and scaled by
    /// `unit`, truncated toward zero.
    pub fn get_fixed(&self, key: &str, unit: u64) -> (r: Option<i64>)
        requires
            unit <= 1_000_000,
        ensures
            r == spec_get_fixed(self@, key@, unit as nat),
    {
        match self.get(key) {
            Some(v) => {
                let c = chars_of(v);
                parse_fixed(&c, unit)
            },
            None => None,
        }
    }

    /// Whether property `key` reads as a number greater than zero.
    pub fn get_positive(&self, key: &str) -> (r: bool)
        ensures
            r == spec_get_positive(self@, key@),
    {
        match self.get(key) {
            Some(v) => {
                let c = chars_of(v);
                is_positive_number(&c)
            },
            None => false,
        }
    }

    /// A coordinate property, in mils, converted to nanometres.
    pub fn get_coord_nm(&self, key: &str) -> (r: Option<i64>)
        ensures
            r == spec_get_fixed(self@, key@, NM_PER_MIL as nat),
    {
        self.get_fixed(key, NM_PER_MIL)
    }

    /// A decimal property (an angle in degrees, say) in thousandths.
    pub fn get_milli(&self, key: &str) -> (r: Option<i64>)
        ensures
            r == spec_get_fixed(self@, key@, 1000),
    {
        self.get_fixed(key, 1000)
    }

    /// Whether property `key` holds a true value (`TRUE`, `true`, `1`, `T`).
    pub fn get_bool(&self, key: &str) -> (r: bool)
        ensures
            r == spec_get_bool(self@, key@),
    {
        match self.get(key) {
            Some(v) => {
                let c = chars_of(v);
                let t = (c.len() == 4 && c[0] == 'T' && c[1] == 'R' && c[2] == 'U' && c[3] == 'E')
                    || (c.len() == 4 && c[0] == 't' && c[1] == 'r' && c[2] == 'u' && c[3] == 'e')
                    || (c.len() == 1 && c[0] == '1') || (c.len() == 1 && c[0] == 'T');
                assert(t == (c@ =~= seq!['T', 'R', 'U', 'E'] || c@ =~= seq!['t', 'r', 'u', 'e']
                    || c@ =~= seq!['1'] || c@ =~= seq!['T']));
                t
            },
            None => false,
        }
    }

    /// Parses a pipe-delimited string such as `|RECORD=1|LOCATION.X=100|`:
    /// every `KEY=VALUE` item between pipes becomes a property (key trimmed
    /// and upper-cased, value trimmed); items without `=` are skipped.
    pub fn from_pipe_str(s: &str) -> (r: Self)
        ensures
            r@ == spec_from_pipe(s@),
            keys_distinct(r.properties@),
    {
        let chars = chars_of(s);
        Self::from_pipe_chars(&chars)
    }

    /// [`AltiumRecord::from_pipe_str`] over a character vector.
    pub fn from_pipe_chars(chars: &Vec<char>) -> (r: Self)
        ensures
            r@ == spec_from_pipe(chars@),
            keys_distinct(r.properties@),
    {
        let s = chars;
        let items = split_chars(s, '|');
        let ghost spec_items = spec_split(s@, '|');
        let mut properties: Vec<(String, String)> = Vec::new();
        let mut i: usize = 0;
        while i < items.len()
            invariant
                i <= items.len(),
                items.len() == spec_items.len(),
                forall|k: int| 0 <= k < items.len() ==> #[trigger] items@[k]@ == spec_items[k],
                entries_map(properties@) == items_map(spec_items.take(i as int)),
                keys_distinct(properties@),
            decreases items.len() - i,
        {
            let item = &items[i];
            assert(spec_items.take(i + 1).drop_last() =~= spec_items.take(i as int));
            assert(item@ == spec_items[i as int]);
            match find_char(item, '=') {
                Some(p) => {
                    let mut key_chars: Vec<char> = Vec::new();
                    let mut j: usize = 0;
                    while j < p
                        invariant
                            j <= p < item.len(),
                            key_chars@ == item@.take(j as int),
                        decreases p - j,
                    {
                        key_chars.push(item[j]);
                        assert(item@.take(j + 1) =~= item@.take(j as int).push(item@[j as int]));
                        j += 1;
                    }
                    let mut val_chars: Vec<char> = Vec::new();
                    let mut j: usize = p + 1;
                    while j < item.len()
                        invariant
                            p < j <= item.len(),
                            val_chars@ == item@.subrange(p + 1, j as int),
                        decreases item.len() - j,
                    {
                        val_chars.push(item[j]);
                        assert(item@.subrange(p + 1, j + 1) =~= item@.subrange(p + 1, j as int).push(
                            item@[j as int],
                        ));
                        j += 1;
                    }
                    assert(item@.subrange(p + 1, item.len() as int) =~= item@.skip(p + 1));
                    let key_trim = trim_chars(&key_chars);
                    let key_str = string_from(&key_trim);
                    let key = to_uppercase(key_str.as_str());
                    let val_trim = trim_chars(&val_chars);
                    let val = string_from(&val_trim);
                    let ghost old_props = properties@;
                    let mut k: usize = 0;
                    while k < properties.len()
                        invariant
                            k <= properties.len(),
                            properties@ == old_props,
                            forall|m: int| 0 <= m < k ==> #[trigger] old_props[m].0@ != key@,
                        ensures
                            k <= properties.len(),
                            properties@ == old_props,
                            forall|m: int| 0 <= m < k ==> #[trigger] old_props[m].0@ != key@,
                            k < properties.len() ==> old_props[k as int].0@ == key@,
                        decreases properties.len() - k,
                    {
                        if str_eq(properties[k].0.as_str(), key.as_str()) {
                            break;
                        }
                        k += 1;
                    }
                    let ghost kv = (key, val);
                    if k < properties.len() {
                        properties.set(k, (key, val));
                        proof {
                            lemma_entries_map_replace(old_props, k as int, kv);
                        }
                    } else {
                        properties.push((key, val));
                        assert(properties@.drop_last() =~= old_props);
                    }
                },
                None => {},
            }
            i += 1;
        }
        assert(spec_items.take(items.len() as int) =~= spec_items);
        AltiumRecord { properties }
    }
}

/// Replacing the value of a key's one entry replaces the key in the map.
proof fn lemma_entries_map_replace(e: Seq<(String, String)>, k: int, kv: (String, String))
    requires
        keys_distinct(e),
        0 <= k < e.len(),
        e[k].0@ == kv.0@,
    ensures
        entries_map(e.update(k, kv)) == entries_map(e).insert(kv.0@, kv.1@),
        keys_distinct(e.update(k, kv)),
    decreases e.len(),
{
    let u = e.update(k, kv);
    assert forall|i: int, j: int| 0 <= i < j < u.len() implies u[i].0@ != u[j].0@ by {
        assert(e[i].0@ != e[j].0@);
    }
    if k == e.len() - 1 {
        assert(u.drop_last() =~= e.drop_last());
        assert(entries_map(u) =~= entries_map(e).insert(kv.0@, kv.1@));
    } else {
        let d = e.drop_last();
        assert(u.drop_last() =~= d.update(k, kv));
        assert forall|i: int, j: int| 0 <= i < j < d.len() implies d[i].0@ != d[j].0@ by {
            assert(d[i] == e[i] && d[j] == e[j]);
        }
        lemma_entries_map_replace(d, k, kv);
        assert(e.last().0@ != kv.0@) by {
            assert(e[k].0@ != e[e.len() - 1].0@);
        }
        assert(entries_map(u) =~= entries_map(e).insert(kv.0@, kv.1@));
    }
}

proof fn lemma_entries_map_last_match(e: Seq<(String, String)>, i: int, key: Seq<char>)
    requires
        0 <= i < e.len(),
        e[i].0@ == key,
        forall|j: int| i < j < e.len() ==> #[trigger] e[j].0@ != key,
    ensures
        entries_map(e).contains_key(key),
        entries_map(e)[key] == e[i].1@,
    decreases e.len(),
{
    if i < e.len() - 1 {
        assert forall|j: int| i < j < e.drop_last().len() implies #[trigger] e.drop_last()[j].0@
            != key by {
            assert(e.drop_last()[j] == e[j]);
        }
        lemma_entries_map_last_match(e.drop_last(), i, key);
        assert(e.last().0@ != key);
    }
}

proof fn lemma_entries_map_absent(e: Seq<(String, String)>, key: Seq<char>)
    requires
        forall|j: int| 0 <= j < e.len() ==> #[trigger] e[j].0@ != key,
    ensures
        !entries_map(e).contains_key(key),
    decreases e.len(),
{
    if e.len() > 0 {
        assert forall|j: int| 0 <= j < e.drop_last().len() implies #[trigger] e.drop_last()[j].0@
            != key by {
            assert(e.drop_last()[j] == e[j]);
        }
        lemma_entries_map_absent(e.drop_last(), key);
        assert(e.last().0@ != key);
    }
}


/// Whether every property of `a` has the same value in `b`.
fn covered_by(a: &AltiumRecord, b: &AltiumRecord) -> (r: bool)
    ensures
        r == (forall|k: Seq<char>|
            #[trigger] a@.contains_key(k) ==> b@.contains_key(k) && b@[k] == a@[k]),
{
    let mut i: usize = 0;
    while i < a.properties.len()
        invariant
            i <= a.properties.len(),
            forall|j: int|
                0 <= j < i ==> b@.contains_key(#[trigger] a.properties@[j].0@) && b@[a.properties@[j].0@]
                    == a@[a.properties@[j].0@],
        decreases a.properties.len() - i,
    {
        let k = a.properties[i].0.as_str();
        let va = a.get(k);
        let vb = b.get(k);
        proof {
            lemma_entry_key_in_map(a.properties@, i as int);
        }
        match (va, vb) {
            (Some(x), Some(y)) => {
                if !str_eq(x, y) {
                    return false;
                }
            },
            _ => {
                return false;
            },
        }
        i += 1;
    }
    proof {
        assert forall|k: Seq<char>| #[trigger] a@.contains_key(k) implies b@.contains_key(k) && b@[k]
            == a@[k] by {
            if !(exists|j: int| 0 <= j < a.properties@.len() && a.properties@[j].0@ == k) {
                assert forall|j: int| 0 <= j < a.properties@.len() implies #[trigger] a.properties@[j].0@
                    != k by {}
                lemma_entries_map_absent(a.properties@, k);
            }
        }
    }
    true
}

/// Every key of an entry list is a key of its map.
proof fn lemma_entry_key_in_map(e: Seq<(String, String)>, i: int)
    requires
        0 <= i < e.len(),
    ensures
        entries_map(e).contains_key(e[i].0@),
    decreases e.len(),
{
    if i < e.len() - 1 {
        assert(e.drop_last()[i] == e[i]);
        lemma_entry_key_in_map(e.drop_last(), i);
    }
}

impl PartialEq for AltiumRecord {
    fn eq(&self, other: &Self) -> (r: bool) {
        let r = covered_by(self, other) && covered_by(other, self);
        proof {
            if r {
                assert(self@ =~= other@);
            } else if self@ == other@ {
                assert(forall|k: Seq<char>|
                    #[trigger] self@.contains_key(k) ==> other@.contains_key(k) && other@[k]
                        == self@[k]);
                assert(forall|k: Seq<char>|
                    #[trigger] other@.contains_key(k) ==> self@.contains_key(k) && self@[k]
                        == other@[k]);
            }
        }
        r
    }
}

impl PartialEqSpecImpl for AltiumRecord {
    open spec fn obeys_eq_spec() -> bool {
        true
    }

    open spec fn eq_spec(&self, other: &Self) -> bool {
        self@ == other@
    }
}

/// An item `key=value` whose key holds no `=` defines the property named
/// by the trimmed, upper-cased key, holding the trimmed value (everything
/// after the first `=`); an item with no `=` defines nothing.
pub proof fn law_item_property(key: Seq<char>, value: Seq<char>)
    requires
        forall|j: int| 0 <= j < key.len() ==> key[j] != '=',
    ensures
        item_entry(key + seq!['='] + value) == Some(
            (spec_to_uppercase(spec_trim(key)), spec_trim(value)),
        ),
        (forall|j: int| 0 <= j < value.len() ==> value[j] != '=') ==> item_entry(value) is None,
{
    let s = key + seq!['='] + value;
    let p = key.len() as int;
    assert(crate::text::is_first_index(s, '=', p)) by {
        assert forall|j: int| 0 <= j < p implies s[j] != '=' by {
            assert(s[j] == key[j]);
        }
    }
    let q = choose|i: int| crate::text::is_first_index(s, '=', i);
    assert(q == p) by {
        if q < p {
            assert(s[q] == key[q]);
        } else if q > p {
            assert(s[p] == '=');
        }
    }
    assert(s.take(p) =~= key);
    assert(s.skip(p + 1) =~= value);
    if forall|j: int| 0 <= j < value.len() ==> value[j] != '=' {
        if exists|i: int| crate::text::is_first_index(value, '=', i) {
            let i = choose|i: int| crate::text::is_first_index(value, '=', i);
            assert(value[i] == '=');
        }
    }
}

/// Reading a list of items one more item: a later item for a key
/// replaces the earlier value, and an item without `=` changes nothing.
pub proof fn law_later_item_wins(items: Seq<Seq<char>>, key: Seq<char>, value: Seq<char>)
    requires
        forall|j: int| 0 <= j < key.len() ==> key[j] != '=',
    ensures
        items_map(items.push(key + seq!['='] + value)) == items_map(items).insert(
            spec_to_uppercase(spec_trim(key)),
            spec_trim(value),
        ),
{
    law_item_property(key, value);
    assert(items.push(key + seq!['='] + value).drop_last() =~= items);
}

} // verus!
