//! The library's stores: component rows grouped in tables, and the
//! primitives (symbols, footprints, simulation models), each scoped by
//! library.

use vstd::prelude::*;
use vstd::seq_lib::to_multiset_build;
use vstd::seq_lib::to_multiset_insert;
use crate::ids::now_rfc3339;
use crate::text::{lemma_str_lt_irreflexive, lemma_str_lt_total, lemma_str_lt_trans, str_eq, str_less, str_lt, to_string};

verus! {

// -------------------------------------------------------------------
// Component rows.
// -------------------------------------------------------------------

/// A stored component row: where it lives, its part number, its JSON
/// payload and its timestamps.
#[derive(Debug)]
pub struct ComponentRowRecord {
    pub library_id: String,
    pub table_name: String,
    pub row_id: String,
    pub internal_pn: String,
    pub payload: String,
    pub created_at: String,
    pub updated_at: String,
}

/// What a stored row holds.
#[verifier::ext_equal]
pub struct RowView {
    pub library_id: Seq<char>,
    pub table_name: Seq<char>,
    pub row_id: Seq<char>,
    pub internal_pn: Seq<char>,
    pub payload: Seq<char>,
    pub created_at: Seq<char>,
    pub updated_at: Seq<char>,
}

impl View for ComponentRowRecord {
    type V = RowView;

    open spec fn view(&self) -> RowView {
        RowView {
            library_id: self.library_id@,
            table_name: self.table_name@,
            row_id: self.row_id@,
            internal_pn: self.internal_pn@,
            payload: self.payload@,
            created_at: self.created_at@,
            updated_at: self.updated_at@,
        }
    }
}

/// The views of a list of rows.
pub open spec fn row_views(v: Seq<ComponentRowRecord>) -> Seq<RowView> {
    v.map_values(|r: ComponentRowRecord| r@)
}

/// The key a row is found by: library, table, row identifier.
pub open spec fn row_key(r: RowView) -> (Seq<char>, Seq<char>, Seq<char>) {
    (r.library_id, r.table_name, r.row_id)
}

/// No two rows share a key.
pub open spec fn unique_row_keys(s: Seq<RowView>) -> bool {
    forall|i: int, j: int| 0 <= i < j < s.len() ==> row_key(s[i]) != row_key(s[j])
}

/// The position of the row with key `k`, if there is one.
pub open spec fn row_index(s: Seq<RowView>, k: (Seq<char>, Seq<char>, Seq<char>)) -> Option<int> {
    if exists|i: int| 0 <= i < s.len() && row_key(s[i]) == k {
        Some(choose|i: int| 0 <= i < s.len() && row_key(s[i]) == k)
    } else {
        None
    }
}

/// The rows of table `table` in library `lib`, in storage order.
pub open spec fn rows_in_table(s: Seq<RowView>, lib: Seq<char>, table: Seq<char>) -> Seq<RowView>
    decreases s.len(),
{
    if s.len() == 0 {
        Seq::empty()
    } else {
        let rest = rows_in_table(s.drop_last(), lib, table);
        if s.last().library_id == lib && s.last().table_name == table {
            rest.push(s.last())
        } else {
            rest
        }
    }
}

/// The texts of a list of names.
pub open spec fn names_view(v: Seq<String>) -> Seq<Seq<char>> {
    v.map_values(|n: String| n@)
}

/// Rows ordered by part number (ties in any order).
pub open spec fn sorted_by_pn(s: Seq<RowView>) -> bool {
    forall|a: int, b: int| 0 <= a < b < s.len() ==> !str_lt(s[b].internal_pn, s[a].internal_pn)
}

/// Names in strictly increasing order (so none repeats).
pub open spec fn strictly_sorted(s: Seq<Seq<char>>) -> bool {
    forall|a: int, b: int| 0 <= a < b < s.len() ==> str_lt(s[a], s[b])
}

/// The rows of every table, scoped by library.
#[derive(Debug)]
pub struct RowStore {
    rows: Vec<ComponentRowRecord>,
}

impl View for RowStore {
    type V = Seq<RowView>;

    closed spec fn view(&self) -> Seq<RowView> {
        row_views(self.rows@)
    }
}

fn copy_row(r: &ComponentRowRecord) -> (c: ComponentRowRecord)
    ensures
        c@ == r@,
{
    ComponentRowRecord {
        library_id: to_string(r.library_id.as_str()),
        table_name: to_string(r.table_name.as_str()),
        row_id: to_string(r.row_id.as_str()),
        internal_pn: to_string(r.internal_pn.as_str()),
        payload: to_string(r.payload.as_str()),
        created_at: to_string(r.created_at.as_str()),
        updated_at: to_string(r.updated_at.as_str()),
    }
}

impl RowStore {
    #[verifier::type_invariant]
    spec fn keys_unique(self) -> bool {
        unique_row_keys(row_views(self.rows@))
    }

    /// An empty store.
    pub fn new() -> (r: Self)
        ensures
            r@ == Seq::<RowView>::empty(),
    {
        let r = RowStore { rows: Vec::new() };
        assert(r@ =~= Seq::<RowView>::empty());
        r
    }

    fn find(&self, lib: &str, table: &str, row_id: &str) -> (r: Option<usize>)
        ensures
            unique_row_keys(self@),
            match r {
                Some(i) => row_index(self@, (lib@, table@, row_id@)) == Some(i as int) && i
                    < self@.len(),
                None => row_index(self@, (lib@, table@, row_id@)) is None,
            },
    {
        proof {
            use_type_invariant(self);
        }
        let ghost s = self@;
        let ghost k = (lib@, table@, row_id@);
        let mut i: usize = 0;
        while i < self.rows.len()
            invariant
                i <= self.rows.len(),
                s == self@,
                s.len() == self.rows@.len(),
                unique_row_keys(s),
                k == (lib@, table@, row_id@),
                forall|j: int| 0 <= j < i ==> row_key(s[j]) != k,
            decreases self.rows.len() - i,
        {
            let r = &self.rows[i];
            assert(s[i as int] == r@);
            if str_eq(r.library_id.as_str(), lib) && str_eq(r.table_name.as_str(), table) && str_eq(
                r.row_id.as_str(),
                row_id,
            ) {
                assert(row_key(s[i as int]) == k);
                let ghost w = choose|w: int| 0 <= w < s.len() && row_key(s[w]) == k;
                assert(w == i as int) by {
                    if w < i {
                    } else if w > i {
                        assert(row_key(s[i as int]) != row_key(s[w]));
                    }
                }
                return Some(i);
            }
            i += 1;
        }
        None
    }

    /// Adds a row unless one with the same library, table and row
    /// identifier exists; `false` (and no change) in that case. The row's
    /// timestamps are both the current time.
    pub fn insert_row(
        &mut self,
        library_id: &str,
        table_name: &str,
        row_id: &str,
        internal_pn: &str,
        payload: &str,
    ) -> (r: bool)
        ensures
            unique_row_keys(final(self)@),
            match row_index(old(self)@, (library_id@, table_name@, row_id@)) {
                Some(_) => !r && final(self)@ == old(self)@,
                None => r && final(self)@ == old(self)@.push(
                    RowView {
                        library_id: library_id@,
                        table_name: table_name@,
                        row_id: row_id@,
                        internal_pn: internal_pn@,
                        payload: payload@,
                        created_at: final(self)@.last().created_at,
                        updated_at: final(self)@.last().created_at,
                    },
                ),
            },
    {
        proof {
            use_type_invariant(&*self);
        }
        match self.find(library_id, table_name, row_id) {
            Some(_) => false,
            None => {
                let now = now_rfc3339();
                let rec = ComponentRowRecord {
                    library_id: to_string(library_id),
                    table_name: to_string(table_name),
                    row_id: to_string(row_id),
                    internal_pn: to_string(internal_pn),
                    payload: to_string(payload),
                    created_at: to_string(now.as_str()),
                    updated_at: now,
                };
                let ghost s = self@;
                let ghost rv = rec@;
                let mut v: Vec<ComponentRowRecord> = Vec::new();
                std::mem::swap(&mut v, &mut self.rows);
                v.push(rec);
                proof {
                    assert(row_views(v@) =~= s.push(rv));
                    assert forall|a: int, b: int| 0 <= a < b < s.push(rv).len() implies row_key(
                        s.push(rv)[a],
                    ) != row_key(s.push(rv)[b]) by {
                        if b == s.len() {
                            assert(row_key(s[a]) != (library_id@, table_name@, row_id@));
                        }
                    }
                }
                self.rows = v;
                true
            },
        }
    }

    /// Replaces the part number and payload of an existing row and stamps
    /// it with the current time; `false` (and no change) when there is no
    /// such row.
    pub fn update_row(
        &mut self,
        library_id: &str,
        table_name: &str,
        row_id: &str,
        internal_pn: &str,
        payload: &str,
    ) -> (r: bool)
        ensures
            unique_row_keys(final(self)@),
            match row_index(old(self)@, (library_id@, table_name@, row_id@)) {
                Some(i) => r && final(self)@ == old(self)@.update(
                    i,
                    RowView {
                        internal_pn: internal_pn@,
                        payload: payload@,
                        updated_at: final(self)@[i].updated_at,
                        ..old(self)@[i]
                    },
                ),
                None => !r && final(self)@ == old(self)@,
            },
    {
        proof {
            use_type_invariant(&*self);
        }
        match self.find(library_id, table_name, row_id) {
            None => false,
            Some(i) => {
                let now = now_rfc3339();
                let ghost s = self@;
                let old_rec = &self.rows[i];
                let rec = ComponentRowRecord {
                    library_id: to_string(old_rec.library_id.as_str()),
                    table_name: to_string(old_rec.table_name.as_str()),
                    row_id: to_string(old_rec.row_id.as_str()),
                    internal_pn: to_string(internal_pn),
                    payload: to_string(payload),
                    created_at: to_string(old_rec.created_at.as_str()),
                    updated_at: now,
                };
                let ghost rv = rec@;
                assert(s[i as int] == old_rec@);
                let mut v: Vec<ComponentRowRecord> = Vec::new();
                std::mem::swap(&mut v, &mut self.rows);
                v.set(i, rec);
                proof {
                    assert(row_views(v@) =~= s.update(i as int, rv));
                    assert forall|a: int, b: int| 0 <= a < b < s.len() implies row_key(
                        s.update(i as int, rv)[a],
                    ) != row_key(s.update(i as int, rv)[b]) by {
                        assert(row_key(s[a]) != row_key(s[b]));
                    }
                }
                self.rows = v;
                true
            },
        }
    }

    /// The payload of the row, if there is one.
    pub fn fetch_row(&self, library_id: &str, table_name: &str, row_id: &str) -> (r: Option<String>)
        ensures
            match row_index(self@, (library_id@, table_name@, row_id@)) {
                Some(i) => r matches Some(p) && p@ == self@[i].payload,
                None => r is None,
            },
    {
        match self.find(library_id, table_name, row_id) {
            None => None,
            Some(i) => {
                assert(self@[i as int] == self.rows@[i as int]@);
                Some(to_string(self.rows[i].payload.as_str()))
            },
        }
    }

    /// Removes the row; `false` (and no change) when there is no such row.
    pub fn delete_row(&mut self, library_id: &str, table_name: &str, row_id: &str) -> (r: bool)
        ensures
            unique_row_keys(final(self)@),
            match row_index(old(self)@, (library_id@, table_name@, row_id@)) {
                Some(i) => r && final(self)@ == old(self)@.remove(i),
                None => !r && final(self)@ == old(self)@,
            },
    {
        proof {
            use_type_invariant(&*self);
        }
        match self.find(library_id, table_name, row_id) {
            None => false,
            Some(i) => {
                let ghost s = self@;
                let mut v: Vec<ComponentRowRecord> = Vec::new();
                std::mem::swap(&mut v, &mut self.rows);
                v.remove(i);
                proof {
                    assert(row_views(v@) =~= s.remove(i as int));
                    assert forall|a: int, b: int| 0 <= a < b < s.remove(i as int).len() implies row_key(
                        s.remove(i as int)[a],
                    ) != row_key(s.remove(i as int)[b]) by {
                        let a2 = if a < i {
                            a
                        } else {
                            a + 1
                        };
                        let b2 = if b < i {
                            b
                        } else {
                            b + 1
                        };
                        assert(row_key(s[a2]) != row_key(s[b2]));
                    }
                }
                self.rows = v;
                true
            },
        }
    }

    /// The names of the tables of `library_id` that hold at least one row,
    /// in increasing order, each once.
    pub fn list_table_names(&self, library_id: &str) -> (r: Vec<String>)
        ensures
            strictly_sorted(names_view(r@)),
            forall|n: Seq<char>|
                #[trigger] names_view(r@).contains(n) <==> exists|i: int|
                    0 <= i < self@.len() && self@[i].library_id == library_id@ && #[trigger] self@[i].table_name
                        == n,
    {
        let ghost s = self@;
        let mut names: Vec<String> = Vec::new();
        let mut i: usize = 0;
        while i < self.rows.len()
            invariant
                i <= self.rows.len(),
                s == self@,
                s.len() == self.rows@.len(),
                strictly_sorted(names_view(names@)),
                forall|n: Seq<char>|
                    #[trigger] names_view(names@).contains(n) <==> exists|j: int|
                        0 <= j < i && s[j].library_id == library_id@ && #[trigger] s[j].table_name == n,
            decreases self.rows.len() - i,
        {
            let r = &self.rows[i];
            assert(s[i as int] == r@);
            let ghost nv = names_view(names@);
            if str_eq(r.library_id.as_str(), library_id) {
                let t = r.table_name.as_str();
                let mut p: usize = 0;
                let mut present = false;
                while p < names.len()
                    invariant_except_break
                        !present,
                    invariant
                        p <= names.len(),
                        nv == names_view(names@),
                        strictly_sorted(nv),
                        forall|q: int| 0 <= q < p ==> str_lt(#[trigger] nv[q], t@),
                    ensures
                        p <= names.len(),
                        present ==> p < names.len() && nv[p as int] == t@,
                        !present ==> (forall|q: int| 0 <= q < p ==> str_lt(#[trigger] nv[q], t@)),
                        !present ==> (p == names.len() || str_lt(t@, nv[p as int])),
                    decreases names.len() - p,
                {
                    assert(nv[p as int] == names@[p as int]@);
                    if str_eq(names[p].as_str(), t) {
                        present = true;
                        break;
                    }
                    if str_less(t, names[p].as_str()) {
                        break;
                    }
                    proof {
                        lemma_str_lt_total(nv[p as int], t@);
                    }
                    p += 1;
                }
                if !present {
                    let ghost tv = t@;
                    names.insert(p, to_string(t));
                    proof {
                        let nv2 = names_view(names@);
                        assert(nv2 =~= nv.insert(p as int, tv));
                        assert forall|a: int, b: int| 0 <= a < b < nv2.len() implies str_lt(
                            nv2[a],
                            nv2[b],
                        ) by {
                            if b == p {
                                assert(str_lt(nv[a], tv));
                            } else if a == p {
                                assert(nv2[b] == nv[b - 1]);
                                if b - 1 > p {
                                    assert(str_lt(nv[p as int], nv[b - 1]));
                                    lemma_str_lt_trans(tv, nv[p as int], nv[b - 1]);
                                }
                            } else if a < p && b > p {
                                assert(nv2[b] == nv[b - 1]);
                                assert(str_lt(nv[a], nv[b - 1]));
                            } else if a > p {
                                assert(nv2[a] == nv[a - 1] && nv2[b] == nv[b - 1]);
                            }
                        }
                        assert forall|n: Seq<char>|
                            #[trigger] nv2.contains(n) <==> exists|j: int|
                                0 <= j < i + 1 && s[j].library_id == library_id@
                                    && #[trigger] s[j].table_name == n by {
                            if nv2.contains(n) {
                                let q = choose|q: int| 0 <= q < nv2.len() && nv2[q] == n;
                                if q != p {
                                    let q2 = if q < p {
                                        q
                                    } else {
                                        q - 1
                                    };
                                    assert(nv[q2] == n);
                                    assert(nv.contains(n));
                                } else {
                                    assert(s[i as int].table_name == n);
                                }
                            }
                            if exists|j: int|
                                0 <= j < i + 1 && s[j].library_id == library_id@
                                    && #[trigger] s[j].table_name == n {
                                let j = choose|j: int|
                                    0 <= j < i + 1 && s[j].library_id == library_id@
                                        && #[trigger] s[j].table_name == n;
                                if j < i {
                                    assert(nv.contains(n));
                                    let q = choose|q: int| 0 <= q < nv.len() && nv[q] == n;
                                    let q2 = if q < p {
                                        q
                                    } else {
                                        q + 1
                                    };
                                    assert(nv2[q2] == n);
                                } else {
                                    assert(nv2[p as int] == n);
                                }
                            }
                        }
                    }
                } else {
                    assert forall|n: Seq<char>|
                        #[trigger] nv.contains(n) <==> exists|j: int|
                            0 <= j < i + 1 && s[j].library_id == library_id@
                                && #[trigger] s[j].table_name == n by {
                        if exists|j: int|
                            0 <= j < i + 1 && s[j].library_id == library_id@
                                && #[trigger] s[j].table_name == n {
                            let j = choose|j: int|
                                0 <= j < i + 1 && s[j].library_id == library_id@
                                    && #[trigger] s[j].table_name == n;
                            if j == i {
                                assert(nv[p as int] == n);
                            }
                        }
                    }
                }
            } else {
                assert forall|n: Seq<char>|
                    nv.contains(n) <==> exists|j: int|
                        0 <= j < i + 1 && s[j].library_id == library_id@
                            && #[trigger] s[j].table_name == n by {
                    if exists|j: int|
                        0 <= j < i + 1 && s[j].library_id == library_id@
                            && #[trigger] s[j].table_name == n {
                        let j = choose|j: int|
                            0 <= j < i + 1 && s[j].library_id == library_id@
                                && #[trigger] s[j].table_name == n;
                        assert(j != i);
                    }
                }
            }
            i += 1;
        }
        names
    }

    /// Copies of the rows of table `table_name` in `library_id`, ordered
    /// by part number.
    pub fn list_rows_in_table(&self, library_id: &str, table_name: &str) -> (r: Vec<ComponentRowRecord>)
        ensures
            sorted_by_pn(row_views(r@)),
            row_views(r@).to_multiset() == rows_in_table(self@, library_id@, table_name@).to_multiset(),
    {
        let ghost s = self@;
        let mut out: Vec<ComponentRowRecord> = Vec::new();
        let mut i: usize = 0;
        assert(row_views(out@) =~= Seq::<RowView>::empty());
        while i < self.rows.len()
            invariant
                i <= self.rows.len(),
                s == self@,
                s.len() == self.rows@.len(),
                sorted_by_pn(row_views(out@)),
                row_views(out@).to_multiset() == rows_in_table(s.take(i as int), library_id@, table_name@).to_multiset(),
            decreases self.rows.len() - i,
        {
            let r = &self.rows[i];
            assert(s[i as int] == r@);
            assert(s.take(i + 1).drop_last() =~= s.take(i as int));
            assert(s.take(i + 1).last() == s[i as int]);
            if str_eq(r.library_id.as_str(), library_id) && str_eq(r.table_name.as_str(), table_name) {

                let ghost ovg = row_views(out@);
                let pn = r.internal_pn.as_str();
                let mut p: usize = 0;
                while p < out.len()
                    invariant
                        p <= out.len(),
                        ovg == row_views(out@),
                        forall|q: int| 0 <= q < p ==> !str_lt(pn@, #[trigger] ovg[q].internal_pn),
                    ensures
                        p <= out.len(),
                        forall|q: int| 0 <= q < p ==> !str_lt(pn@, #[trigger] ovg[q].internal_pn),
                        p < out.len() ==> str_lt(pn@, ovg[p as int].internal_pn),
                    decreases out.len() - p,
                {
                    assert(ovg[p as int] == out@[p as int]@);
                    if str_less(pn, out[p].internal_pn.as_str()) {
                        break;
                    }
                    p += 1;
                }
                let c = copy_row(r);
                let ghost cv = c@;
                out.insert(p, c);
                proof {
                    let nv = row_views(out@);
                    assert(nv =~= ovg.insert(p as int, cv));
                    to_multiset_insert(ovg, p as int, cv);
                    to_multiset_build(rows_in_table(s.take(i as int), library_id@, table_name@), cv);
                    assert forall|a: int, b: int| 0 <= a < b < nv.len() implies !str_lt(
                        nv[b].internal_pn,
                        nv[a].internal_pn,
                    ) by {
                        if b == p {
                            assert(!str_lt(cv.internal_pn, ovg[a].internal_pn));
                        } else if a == p {
                            assert(nv[b] == ovg[b - 1]);
                            if str_lt(ovg[b - 1].internal_pn, cv.internal_pn) {
                                assert(p < ovg.len());
                                assert(str_lt(cv.internal_pn, ovg[p as int].internal_pn));
                                lemma_str_lt_trans(ovg[b - 1].internal_pn, cv.internal_pn, ovg[p as int].internal_pn);
                                if b - 1 > p {
                                    assert(!str_lt(ovg[b - 1].internal_pn, ovg[p as int].internal_pn));
                                } else {
                                    lemma_str_lt_irreflexive(ovg[p as int].internal_pn);
                                }
                            }
                        } else if a < p && b > p {
                            assert(nv[b] == ovg[b - 1]);
                        } else if a > p {
                            assert(nv[a] == ovg[a - 1] && nv[b] == ovg[b - 1]);
                        }
                    }
                }
            }
            i += 1;
        }
        assert(s.take(self.rows.len() as int) =~= s);
        out
    }
}

// -------------------------------------------------------------------
// Primitives.
// -------------------------------------------------------------------

/// A stored primitive: library, identifier, name, JSON payload and
/// timestamps.
#[derive(Debug)]
pub struct PrimitiveRecord {
    pub library_id: String,
    pub uuid: String,
    pub name: String,
    pub payload: String,
    pub created_at: String,
    pub updated_at: String,
}

/// What a stored primitive holds.
#[verifier::ext_equal]
pub struct PrimitiveView {
    pub library_id: Seq<char>,
    pub uuid: Seq<char>,
    pub name: Seq<char>,
    pub payload: Seq<char>,
    pub created_at: Seq<char>,
    pub updated_at: Seq<char>,
}

impl View for PrimitiveRecord {
    type V = PrimitiveView;

    open spec fn view(&self) -> PrimitiveView {
        PrimitiveView {
            library_id: self.library_id@,
            uuid: self.uuid@,
            name: self.name@,
            payload: self.payload@,
            created_at: self.created_at@,
            updated_at: self.updated_at@,
        }
    }
}

/// The views of a list of primitives.
pub open spec fn primitive_views(v: Seq<PrimitiveRecord>) -> Seq<PrimitiveView> {
    v.map_values(|r: PrimitiveRecord| r@)
}

/// The key a primitive is found by: library and identifier.
pub open spec fn primitive_key(r: PrimitiveView) -> (Seq<char>, Seq<char>) {
    (r.library_id, r.uuid)
}

/// No two primitives share a key.
pub open spec fn unique_primitive_keys(s: Seq<PrimitiveView>) -> bool {
    forall|i: int, j: int| 0 <= i < j < s.len() ==> primitive_key(s[i]) != primitive_key(s[j])
}

/// The position of the primitive with key `k`, if there is one.
pub open spec fn primitive_index(s: Seq<PrimitiveView>, k: (Seq<char>, Seq<char>)) -> Option<int> {
    if exists|i: int| 0 <= i < s.len() && primitive_key(s[i]) == k {
        Some(choose|i: int| 0 <= i < s.len() && primitive_key(s[i]) == k)
    } else {
        None
    }
}

/// The primitives of library `lib` (of every library for `None`), in
/// storage order.
pub open spec fn primitives_of(s: Seq<PrimitiveView>, lib: Option<Seq<char>>) -> Seq<PrimitiveView>
    decreases s.len(),
{
    if s.len() == 0 {
        Seq::empty()
    } else {
        let rest = primitives_of(s.drop_last(), lib);
        let keep = match lib {
            Some(l) => s.last().library_id == l,
            None => true,
        };
        if keep {
            rest.push(s.last())
        } else {
            rest
        }
    }
}

/// Primitives ordered by name (ties in any order).
pub open spec fn sorted_by_name(s: Seq<PrimitiveView>) -> bool {
    forall|a: int, b: int| 0 <= a < b < s.len() ==> !str_lt(s[b].name, s[a].name)
}

/// The primitives of one kind (symbols, footprints or simulation models).
#[derive(Debug)]
pub struct PrimitiveStore {
    records: Vec<PrimitiveRecord>,
}

impl View for PrimitiveStore {
    type V = Seq<PrimitiveView>;

    closed spec fn view(&self) -> Seq<PrimitiveView> {
        primitive_views(self.records@)
    }
}

fn copy_primitive(r: &PrimitiveRecord) -> (c: PrimitiveRecord)
    ensures
        c@ == r@,
{
    PrimitiveRecord {
        library_id: to_string(r.library_id.as_str()),
        uuid: to_string(r.uuid.as_str()),
        name: to_string(r.name.as_str()),
        payload: to_string(r.payload.as_str()),
        created_at: to_string(r.created_at.as_str()),
        updated_at: to_string(r.updated_at.as_str()),
    }
}

/// The primitive tables the store serves.
pub open spec fn is_primitive_table(table: Seq<char>) -> bool {
    table == "symbols"@ || table == "footprints"@ || table == "sims"@
}

/// States that `table` is one of the primitive tables; a caller can only
/// name a table that is.
pub fn assert_primitive_table(table: &str)
    requires
        is_primitive_table(table@),
{
}

impl PrimitiveStore {
    #[verifier::type_invariant]
    spec fn keys_unique(self) -> bool {
        unique_primitive_keys(primitive_views(self.records@))
    }

    /// An empty store.
    pub fn new() -> (r: Self)
        ensures
            r@ == Seq::<PrimitiveView>::empty(),
    {
        let r = PrimitiveStore { records: Vec::new() };
        assert(r@ =~= Seq::<PrimitiveView>::empty());
        r
    }

    fn find(&self, lib: &str, uuid: &str) -> (r: Option<usize>)
        ensures
            unique_primitive_keys(self@),
            match r {
                Some(i) => primitive_index(self@, (lib@, uuid@)) == Some(i as int) && i < self@.len(),
                None => primitive_index(self@, (lib@, uuid@)) is None,
            },
    {
        proof {
            use_type_invariant(self);
        }
        let ghost s = self@;
        let ghost k = (lib@, uuid@);
        let mut i: usize = 0;
        while i < self.records.len()
            invariant
                i <= self.records.len(),
                s == self@,
                s.len() == self.records@.len(),
                unique_primitive_keys(s),
                k == (lib@, uuid@),
                forall|j: int| 0 <= j < i ==> primitive_key(s[j]) != k,
            decreases self.records.len() - i,
        {
            let r = &self.records[i];
            assert(s[i as int] == r@);
            if str_eq(r.library_id.as_str(), lib) && str_eq(r.uuid.as_str(), uuid) {
                assert(primitive_key(s[i as int]) == k);
                let ghost w = choose|w: int| 0 <= w < s.len() && primitive_key(s[w]) == k;
                assert(w == i as int) by {
                    if w < i {
                    } else if w > i {
                        assert(primitive_key(s[i as int]) != primitive_key(s[w]));
                    }
                }
                return Some(i);
            }
            i += 1;
        }
        None
    }

    /// Stores a primitive: an existing one of that library and identifier
    /// gets the new name and payload and the current time as its update
    /// time; otherwise a new one is added, created and updated now.
    pub fn upsert(&mut self, library_id: &str, uuid: &str, name: &str, payload: &str)
        ensures
            unique_primitive_keys(final(self)@),
            match primitive_index(old(self)@, (library_id@, uuid@)) {
                Some(i) => final(self)@ == old(self)@.update(
                    i,
                    PrimitiveView {
                        name: name@,
                        payload: payload@,
                        updated_at: final(self)@[i].updated_at,
                        ..old(self)@[i]
                    },
                ),
                None => final(self)@ == old(self)@.push(
                    PrimitiveView {
                        library_id: library_id@,
                        uuid: uuid@,
                        name: name@,
                        payload: payload@,
                        created_at: final(self)@.last().created_at,
                        updated_at: final(self)@.last().created_at,
                    },
                ),
            },
    {
        proof {
            use_type_invariant(&*self);
        }
        let now = now_rfc3339();
        let ghost s = self@;
        match self.find(library_id, uuid) {
            Some(i) => {
                let old_rec = &self.records[i];
                let rec = PrimitiveRecord {
                    library_id: to_string(old_rec.library_id.as_str()),
                    uuid: to_string(old_rec.uuid.as_str()),
                    name: to_string(name),
                    payload: to_string(payload),
                    created_at: to_string(old_rec.created_at.as_str()),
                    updated_at: now,
                };
                let ghost rv = rec@;
                assert(s[i as int] == old_rec@);
                let mut v: Vec<PrimitiveRecord> = Vec::new();
                std::mem::swap(&mut v, &mut self.records);
                v.set(i, rec);
                proof {
                    assert(primitive_views(v@) =~= s.update(i as int, rv));
                    assert forall|a: int, b: int| 0 <= a < b < s.len() implies primitive_key(
                        s.update(i as int, rv)[a],
                    ) != primitive_key(s.update(i as int, rv)[b]) by {
                        assert(primitive_key(s[a]) != primitive_key(s[b]));
                    }
                }
                self.records = v;
            },
            None => {
                let rec = PrimitiveRecord {
                    library_id: to_string(library_id),
                    uuid: to_string(uuid),
                    name: to_string(name),
                    payload: to_string(payload),
                    created_at: to_string(now.as_str()),
                    updated_at: now,
                };
                let ghost rv = rec@;
                let mut v: Vec<PrimitiveRecord> = Vec::new();
                std::mem::swap(&mut v, &mut self.records);
                v.push(rec);
                proof {
                    assert(primitive_views(v@) =~= s.push(rv));
                    assert forall|a: int, b: int| 0 <= a < b < s.push(rv).len() implies primitive_key(
                        s.push(rv)[a],
                    ) != primitive_key(s.push(rv)[b]) by {
                        if b == s.len() {
                            assert(primitive_key(s[a]) != (library_id@, uuid@));
                        }
                    }
                }
                self.records = v;
            },
        }
    }

    /// The payload of the primitive, if there is one.
    pub fn fetch_payload(&self, library_id: &str, uuid: &str) -> (r: Option<String>)
        ensures
            match primitive_index(self@, (library_id@, uuid@)) {
                Some(i) => r matches Some(p) && p@ == self@[i].payload,
                None => r is None,
            },
    {
        match self.find(library_id, uuid) {
            None => None,
            Some(i) => {
                assert(self@[i as int] == self.records@[i as int]@);
                Some(to_string(self.records[i].payload.as_str()))
            },
        }
    }

    /// Copies of the primitives of `library_id` (of every library for
    /// `None`), ordered by name.
    pub fn list(&self, library_id: Option<&str>) -> (r: Vec<PrimitiveRecord>)
        ensures
            sorted_by_name(primitive_views(r@)),
            primitive_views(r@).to_multiset() == primitives_of(
                self@,
                match library_id {
                    Some(l) => Some(l@),
                    None => None,
                },
            ).to_multiset(),
    {
        let ghost s = self@;
        let ghost lib = match library_id {
            Some(l) => Some(l@),
            None => None,
        };
        let mut out: Vec<PrimitiveRecord> = Vec::new();
        let mut i: usize = 0;
        assert(primitive_views(out@) =~= Seq::<PrimitiveView>::empty());
        while i < self.records.len()
            invariant
                i <= self.records.len(),
                s == self@,
                s.len() == self.records@.len(),
                lib == match library_id {
                    Some(l) => Some(l@),
                    None => None,
                },
                sorted_by_name(primitive_views(out@)),
                primitive_views(out@).to_multiset() == primitives_of(s.take(i as int), lib).to_multiset(),
            decreases self.records.len() - i,
        {
            let r = &self.records[i];
            assert(s[i as int] == r@);
            assert(s.take(i + 1).drop_last() =~= s.take(i as int));
            assert(s.take(i + 1).last() == s[i as int]);
            let keep = match library_id {
                Some(l) => str_eq(r.library_id.as_str(), l),
                None => true,
            };
            if keep {
                let ghost ovg = primitive_views(out@);
                let name = r.name.as_str();
                let mut p: usize = 0;
                while p < out.len()
                    invariant
                        p <= out.len(),
                        ovg == primitive_views(out@),
                        forall|q: int| 0 <= q < p ==> !str_lt(name@, #[trigger] ovg[q].name),
                    ensures
                        p <= out.len(),
                        forall|q: int| 0 <= q < p ==> !str_lt(name@, #[trigger] ovg[q].name),
                        p < out.len() ==> str_lt(name@, ovg[p as int].name),
                    decreases out.len() - p,
                {
                    assert(ovg[p as int] == out@[p as int]@);
                    if str_less(name, out[p].name.as_str()) {
                        break;
                    }
                    p += 1;
                }
                let c = copy_primitive(r);
                let ghost cv = c@;
                out.insert(p, c);
                proof {
                    let nv = primitive_views(out@);
                    assert(nv =~= ovg.insert(p as int, cv));
                    to_multiset_insert(ovg, p as int, cv);
                    to_multiset_build(primitives_of(s.take(i as int), lib), cv);
                    assert forall|a: int, b: int| 0 <= a < b < nv.len() implies !str_lt(
                        nv[b].name,
                        nv[a].name,
                    ) by {
                        if b == p {
                            assert(!str_lt(cv.name, ovg[a].name));
                        } else if a == p {
                            assert(nv[b] == ovg[b - 1]);
                            if str_lt(ovg[b - 1].name, cv.name) {
                                assert(p < ovg.len());
                                assert(str_lt(cv.name, ovg[p as int].name));
                                lemma_str_lt_trans(ovg[b - 1].name, cv.name, ovg[p as int].name);
                                if b - 1 > p {
                                    assert(!str_lt(ovg[b - 1].name, ovg[p as int].name));
                                } else {
                                    lemma_str_lt_irreflexive(ovg[p as int].name);
                                }
                            }
                        } else if a < p && b > p {
                            assert(nv[b] == ovg[b - 1]);
                        } else if a > p {
                            assert(nv[a] == ovg[a - 1] && nv[b] == ovg[b - 1]);
                        }
                    }
                }
            }
            i += 1;
        }
        assert(s.take(self.records.len() as int) =~= s);
        out
    }
}

// -------------------------------------------------------------------
// Laws of the stores.
// -------------------------------------------------------------------

/// A row added under a new key is found under that key, with what was
/// written.
pub proof fn law_row_read_after_insert(s: Seq<RowView>, row: RowView)
    requires
        unique_row_keys(s),
        row_index(s, row_key(row)) is None,
    ensures
        unique_row_keys(s.push(row)),
        row_index(s.push(row), row_key(row)) == Some(s.len() as int),
        s.push(row)[s.len() as int] == row,
{
    let t = s.push(row);
    assert forall|a: int, b: int| 0 <= a < b < t.len() implies row_key(t[a]) != row_key(t[b]) by {
        if b == s.len() {
            assert(t[a] == s[a]);
        }
    }
    let w = choose|w: int| 0 <= w < t.len() && row_key(t[w]) == row_key(row);
    assert(row_key(t[s.len() as int]) == row_key(row));
    assert(w == s.len() as int) by {
        if w < s.len() {
            assert(t[w] == s[w]);
        }
    }
}

/// An updated row stays under its key and reads back as written.
pub proof fn law_row_read_after_update(s: Seq<RowView>, i: int, row: RowView)
    requires
        unique_row_keys(s),
        0 <= i < s.len(),
        row_key(row) == row_key(s[i]),
    ensures
        unique_row_keys(s.update(i, row)),
        row_index(s.update(i, row), row_key(row)) == Some(i),
        s.update(i, row)[i] == row,
{
    let t = s.update(i, row);
    assert forall|a: int, b: int| 0 <= a < b < t.len() implies row_key(t[a]) != row_key(t[b]) by {
        assert(row_key(s[a]) != row_key(s[b]));
    }
    assert(row_key(t[i]) == row_key(row));
    let w = choose|w: int| 0 <= w < t.len() && row_key(t[w]) == row_key(row);
    assert(w == i) by {
        if w != i {
            assert(row_key(t[w]) == row_key(s[w]));
            if w < i {
                assert(row_key(s[w]) != row_key(s[i]));
            } else {
                assert(row_key(s[i]) != row_key(s[w]));
            }
        }
    }
}

/// A deleted row is no longer found.
pub proof fn law_row_gone_after_delete(s: Seq<RowView>, i: int)
    requires
        unique_row_keys(s),
        0 <= i < s.len(),
    ensures
        row_index(s.remove(i), row_key(s[i])) is None,
{
    let t = s.remove(i);
    assert forall|w: int| 0 <= w < t.len() implies row_key(t[w]) != row_key(s[i]) by {
        if w < i {
            assert(t[w] == s[w]);
        } else {
            assert(t[w] == s[w + 1]);
        }
    }
}

/// A primitive stored under a new key is found under it with its payload.
pub proof fn law_primitive_read_after_insert(s: Seq<PrimitiveView>, p: PrimitiveView)
    requires
        unique_primitive_keys(s),
        primitive_index(s, primitive_key(p)) is None,
    ensures
        primitive_index(s.push(p), primitive_key(p)) == Some(s.len() as int),
        s.push(p)[s.len() as int].payload == p.payload,
{
    let t = s.push(p);
    assert(primitive_key(t[s.len() as int]) == primitive_key(p));
    let w = choose|w: int| 0 <= w < t.len() && primitive_key(t[w]) == primitive_key(p);
    assert(w == s.len() as int) by {
        if w < s.len() {
            assert(t[w] == s[w]);
        }
    }
}

/// A primitive stored again under its key replaces the old one in place.
pub proof fn law_primitive_read_after_update(s: Seq<PrimitiveView>, i: int, p: PrimitiveView)
    requires
        unique_primitive_keys(s),
        0 <= i < s.len(),
        primitive_key(p) == primitive_key(s[i]),
    ensures
        primitive_index(s.update(i, p), primitive_key(p)) == Some(i),
        s.update(i, p)[i].payload == p.payload,
{
    let t = s.update(i, p);
    assert(primitive_key(t[i]) == primitive_key(p));
    let w = choose|w: int| 0 <= w < t.len() && primitive_key(t[w]) == primitive_key(p);
    assert(w == i) by {
        if w != i {
            assert(primitive_key(t[w]) == primitive_key(s[w]));
            if w < i {
                assert(primitive_key(s[w]) != primitive_key(s[i]));
            } else {
                assert(primitive_key(s[i]) != primitive_key(s[w]));
            }
        }
    }
}

} // verus!
