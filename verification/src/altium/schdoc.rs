//! Conversion of Altium schematic (`.SchDoc`) records into a schematic sheet.

use vstd::prelude::*;
use crate::altium::common::{
    coord_or, milli_or, points_for, sat_add, sat_sub, saturating_add, saturating_sub, spec_coord_or,
    spec_location_count, spec_milli_or, spec_pairs, spec_points, Point,
};
use crate::altium::error::AltiumImportError;
use crate::altium::record::{entries_map, spec_get_i64, AltiumRecord};
use crate::altium::stream::record_views;
use crate::ids::{is_uuid_v7, new_uuid_v7};
use crate::text::{eq_ignore_ascii_case, spec_eq_ignore_ascii_case, to_string};

verus! {

/// A placed schematic symbol.
#[derive(Debug)]
pub struct Symbol {
    pub uuid: u128,
    pub lib_id: String,
    pub reference: String,
    pub value: String,
    pub footprint: String,
    pub position: Point,
    /// Rotation in thousandths of a degree.
    pub rotation: i64,
    pub mirror_x: bool,
    /// Extra parameters, later entries replacing earlier ones.
    pub fields: Vec<(String, String)>,
}

/// What a symbol holds, apart from its identifier.
#[verifier::ext_equal]
pub struct SymbolView {
    pub lib_id: Seq<char>,
    pub reference: Seq<char>,
    pub value: Seq<char>,
    pub footprint: Seq<char>,
    pub position: Point,
    pub rotation: i64,
    pub mirror_x: bool,
    pub fields: Map<Seq<char>, Seq<char>>,
}

impl View for Symbol {
    type V = SymbolView;

    open spec fn view(&self) -> SymbolView {
        SymbolView {
            lib_id: self.lib_id@,
            reference: self.reference@,
            value: self.value@,
            footprint: self.footprint@,
            position: self.position,
            rotation: self.rotation,
            mirror_x: self.mirror_x,
            fields: entries_map(self.fields@),
        }
    }
}

/// A straight wire or bus segment.
#[derive(Debug)]
pub struct Line {
    pub uuid: u128,
    pub start: Point,
    pub end: Point,
}

impl View for Line {
    type V = (Point, Point);

    open spec fn view(&self) -> (Point, Point) {
        (self.start, self.end)
    }
}

/// A wire junction dot.
#[derive(Debug)]
pub struct Junction {
    pub uuid: u128,
    pub position: Point,
}

impl View for Junction {
    type V = Point;

    open spec fn view(&self) -> Point {
        self.position
    }
}

/// The kind of a label.
#[derive(Debug, Clone, Copy, PartialEq, Eq, Structural)]
pub enum LabelType {
    /// A net label.
    Net,
    /// A power port.
    Power,
}

/// A net label or power port.
#[derive(Debug)]
pub struct Label {
    pub uuid: u128,
    pub text: String,
    pub position: Point,
    /// Rotation in thousandths of a degree.
    pub rotation: i64,
    pub label_type: LabelType,
}

/// What a label holds, apart from its identifier.
pub struct LabelView {
    pub text: Seq<char>,
    pub position: Point,
    pub rotation: i64,
    pub label_type: LabelType,
}

impl View for Label {
    type V = LabelView;

    open spec fn view(&self) -> LabelView {
        LabelView {
            text: self.text@,
            position: self.position,
            rotation: self.rotation,
            label_type: self.label_type,
        }
    }
}

/// A bus entry: its position and its extent `(dx, dy)`.
#[derive(Debug)]
pub struct BusEntry {
    pub uuid: u128,
    pub position: Point,
    pub size: (i64, i64),
}

impl View for BusEntry {
    type V = (Point, (i64, i64));

    open spec fn view(&self) -> (Point, (i64, i64)) {
        (self.position, self.size)
    }
}

/// A hierarchical sheet symbol.
#[derive(Debug)]
pub struct ChildSheet {
    pub uuid: u128,
    pub name: String,
    pub filename: String,
    pub position: Point,
    pub size: (i64, i64),
}

/// What a sheet symbol holds, apart from its identifier.
pub struct ChildSheetView {
    pub name: Seq<char>,
    pub filename: Seq<char>,
    pub position: Point,
    pub size: (i64, i64),
}

impl View for ChildSheet {
    type V = ChildSheetView;

    open spec fn view(&self) -> ChildSheetView {
        ChildSheetView {
            name: self.name@,
            filename: self.filename@,
            position: self.position,
            size: self.size,
        }
    }
}

/// A schematic sheet.
#[derive(Debug)]
pub struct SchematicSheet {
    pub uuid: u128,
    pub version: u32,
    pub generator: String,
    pub generator_version: String,
    pub paper_size: String,
    pub root_sheet_page: String,
    pub symbols: Vec<Symbol>,
    pub wires: Vec<Line>,
    pub junctions: Vec<Junction>,
    pub labels: Vec<Label>,
    pub buses: Vec<Line>,
    pub bus_entries: Vec<BusEntry>,
    pub child_sheets: Vec<ChildSheet>,
    /// Title block entries, later entries replacing earlier ones.
    pub title_block: Vec<(String, String)>,
}

/// The drawn content of a sheet.
#[verifier::ext_equal]
pub struct SheetView {
    pub symbols: Seq<SymbolView>,
    pub wires: Seq<(Point, Point)>,
    pub junctions: Seq<Point>,
    pub labels: Seq<LabelView>,
    pub buses: Seq<(Point, Point)>,
    pub bus_entries: Seq<(Point, (i64, i64))>,
    pub child_sheets: Seq<ChildSheetView>,
    pub title_block: Map<Seq<char>, Seq<char>>,
}

impl View for SchematicSheet {
    type V = SheetView;

    open spec fn view(&self) -> SheetView {
        SheetView {
            symbols: self.symbols@.map_values(|s: Symbol| s@),
            wires: self.wires@.map_values(|w: Line| w@),
            junctions: self.junctions@.map_values(|j: Junction| j@),
            labels: self.labels@.map_values(|l: Label| l@),
            buses: self.buses@.map_values(|b: Line| b@),
            bus_entries: self.bus_entries@.map_values(|b: BusEntry| b@),
            child_sheets: self.child_sheets@.map_values(|c: ChildSheet| c@),
            title_block: entries_map(self.title_block@),
        }
    }
}

// ---------------------------------------------------------------------
// The conversion, record by record.
// ---------------------------------------------------------------------

/// The empty sheet.
pub open spec fn empty_sheet() -> SheetView {
    SheetView {
        symbols: Seq::empty(),
        wires: Seq::empty(),
        junctions: Seq::empty(),
        labels: Seq::empty(),
        buses: Seq::empty(),
        bus_entries: Seq::empty(),
        child_sheets: Seq::empty(),
        title_block: Map::empty(),
    }
}

/// The record type number (`RECORD`), or -1.
pub open spec fn record_type(m: Map<Seq<char>, Seq<char>>) -> i64 {
    match spec_get_i64(m, "RECORD"@) {
        Some(t) => t,
        None => -1i64,
    }
}

/// A string property, or `default`.
pub open spec fn text_or(m: Map<Seq<char>, Seq<char>>, key: Seq<char>, default: Seq<char>) -> Seq<
    char,
> {
    if m.contains_key(key) {
        m[key]
    } else {
        default
    }
}

/// `tb` with `name` set to property `key` when the record has it.
pub open spec fn title_entry(
    tb: Map<Seq<char>, Seq<char>>,
    m: Map<Seq<char>, Seq<char>>,
    key: Seq<char>,
    name: Seq<char>,
) -> Map<Seq<char>, Seq<char>> {
    if m.contains_key(key) {
        tb.insert(name, m[key])
    } else {
        tb
    }
}

/// The symbol placed by a component record (`RECORD=1`).
pub open spec fn component_symbol(m: Map<Seq<char>, Seq<char>>) -> SymbolView {
    SymbolView {
        lib_id: text_or(m, "LIBREFERENCE"@, Seq::empty()),
        reference: text_or(m, "DESIGNATOR"@, Seq::empty()),
        value: Seq::empty(),
        footprint: Seq::empty(),
        position: Point {
            x: spec_coord_or(m, "LOCATION.X"@, 0),
            y: spec_coord_or(m, "LOCATION.Y"@, 0),
        },
        rotation: spec_milli_or(m, "ROTATION"@, 0),
        mirror_x: crate::altium::record::spec_get_bool(m, "MIRRORED"@),
        fields: Map::empty(),
    }
}

/// A symbol after a parameter record (`RECORD=34`) named `name` with text
/// `text`: `Comment`/`Value` set the value, `Footprint` the footprint,
/// `Designator` the reference when it is still empty, anything else
/// becomes a field. Names compare up to ASCII case.
pub open spec fn apply_parameter(s: SymbolView, name: Seq<char>, text: Seq<char>) -> SymbolView {
    if spec_eq_ignore_ascii_case(name, "Comment"@) || spec_eq_ignore_ascii_case(name, "Value"@) {
        SymbolView { value: text, ..s }
    } else if spec_eq_ignore_ascii_case(name, "Footprint"@) {
        SymbolView { footprint: text, ..s }
    } else if spec_eq_ignore_ascii_case(name, "Designator"@) {
        if s.reference.len() == 0 {
            SymbolView { reference: text, ..s }
        } else {
            s
        }
    } else {
        SymbolView { fields: s.fields.insert(name, text), ..s }
    }
}

/// The first index of `x` in `s`.
pub open spec fn first_index_int(s: Seq<int>, x: int) -> Option<int> {
    if exists|k: int| 0 <= k < s.len() && s[k] == x && forall|j: int| 0 <= j < k ==> s[j] != x {
        Some(choose|k: int| 0 <= k < s.len() && s[k] == x && forall|j: int| 0 <= j < k ==> s[j] != x)
    } else {
        None
    }
}

/// The points of a wire record (`RECORD=27`): the numbered vertices when
/// the count is at least 2 and two of them are readable, else the segment
/// from `LOCATION` to `CORNER` (10 mm to the right when absent).
pub open spec fn wire_points(m: Map<Seq<char>, Seq<char>>) -> Seq<Point> {
    let count = spec_location_count(m);
    let pts = if count >= 2 {
        spec_points(m, count as nat)
    } else {
        Seq::empty()
    };
    if pts.len() < 2 {
        let x1 = spec_coord_or(m, "LOCATION.X"@, 0);
        let y1 = spec_coord_or(m, "LOCATION.Y"@, 0);
        let x2 = spec_coord_or(m, "CORNER.X"@, sat_add(x1, 10_000_000));
        let y2 = spec_coord_or(m, "CORNER.Y"@, y1);
        seq![Point { x: x1, y: y1 }, Point { x: x2, y: y2 }]
    } else {
        pts
    }
}

/// A label of a net label (`RECORD=4`) or power port (`RECORD=17`) record.
pub open spec fn record_label(m: Map<Seq<char>, Seq<char>>, power: bool) -> LabelView {
    LabelView {
        text: if power {
            text_or(m, "TEXT"@, "GND"@)
        } else {
            text_or(m, "TEXT"@, Seq::empty())
        },
        position: Point {
            x: spec_coord_or(m, "LOCATION.X"@, 0),
            y: spec_coord_or(m, "LOCATION.Y"@, 0),
        },
        rotation: spec_milli_or(m, "ROTATION"@, 0),
        label_type: if power {
            LabelType::Power
        } else {
            LabelType::Net
        },
    }
}

/// The bus entry of a `RECORD=25` record (extent 2.54 mm each way when
/// the corner is absent).
pub open spec fn record_bus_entry(m: Map<Seq<char>, Seq<char>>) -> (Point, (i64, i64)) {
    let x = spec_coord_or(m, "LOCATION.X"@, 0);
    let y = spec_coord_or(m, "LOCATION.Y"@, 0);
    let cx = spec_coord_or(m, "CORNER.X"@, sat_add(x, 2_540_000));
    let cy = spec_coord_or(m, "CORNER.Y"@, sat_add(y, 2_540_000));
    (Point { x, y }, (sat_sub(cx, x), sat_sub(cy, y)))
}

/// The sheet symbol of a `RECORD=14` record (50 mm by 30 mm by default).
pub open spec fn record_child_sheet(m: Map<Seq<char>, Seq<char>>) -> ChildSheetView {
    ChildSheetView {
        name: text_or(m, "SHEETNAME"@, Seq::empty()),
        filename: text_or(m, "FILENAME"@, Seq::empty()),
        position: Point {
            x: spec_coord_or(m, "LOCATION.X"@, 0),
            y: spec_coord_or(m, "LOCATION.Y"@, 0),
        },
        size: (spec_coord_or(m, "XSIZE"@, 50_000_000), spec_coord_or(m, "YSIZE"@, 30_000_000)),
    }
}

/// The sheet and component record indices after record `idx`. `comps[k]`
/// is the index of the record that placed symbol `k`.
pub open spec fn sch_step(sh: SheetView, comps: Seq<int>, idx: int, m: Map<Seq<char>, Seq<char>>) -> (
    SheetView,
    Seq<int>,
) {
    let t = record_type(m);
    if t == 31 {
        let tb = title_entry(
            title_entry(title_entry(sh.title_block, m, "TITLE"@, "title"@), m, "REVISION"@, "rev"@),
            m,
            "DOCUMENTNUMBER"@,
            "doc_number"@,
        );
        (SheetView { title_block: tb, ..sh }, comps)
    } else if t == 1 {
        (SheetView { symbols: sh.symbols.push(component_symbol(m)), ..sh }, comps.push(idx))
    } else if t == 34 {
        match spec_get_i64(m, "OWNERINDEX"@) {
            Some(o) => match first_index_int(comps, o as int) {
                Some(k) => {
                    let s = apply_parameter(
                        sh.symbols[k],
                        text_or(m, "NAME"@, Seq::empty()),
                        text_or(m, "TEXT"@, Seq::empty()),
                    );
                    (SheetView { symbols: sh.symbols.update(k, s), ..sh }, comps)
                },
                None => (sh, comps),
            },
            None => (sh, comps),
        }
    } else if t == 27 {
        (SheetView { wires: sh.wires + spec_pairs(wire_points(m)), ..sh }, comps)
    } else if t == 29 {
        (
            SheetView {
                junctions: sh.junctions.push(
                    Point {
                        x: spec_coord_or(m, "LOCATION.X"@, 0),
                        y: spec_coord_or(m, "LOCATION.Y"@, 0),
                    },
                ),
                ..sh
            },
            comps,
        )
    } else if t == 4 {
        (SheetView { labels: sh.labels.push(record_label(m, false)), ..sh }, comps)
    } else if t == 17 {
        (SheetView { labels: sh.labels.push(record_label(m, true)), ..sh }, comps)
    } else if t == 26 {
        (
            SheetView {
                buses: sh.buses + spec_pairs(spec_points(m, spec_location_count(m) as nat)),
                ..sh
            },
            comps,
        )
    } else if t == 25 {
        (SheetView { bus_entries: sh.bus_entries.push(record_bus_entry(m)), ..sh }, comps)
    } else if t == 14 {
        (SheetView { child_sheets: sh.child_sheets.push(record_child_sheet(m)), ..sh }, comps)
    } else {
        (sh, comps)
    }
}

/// The sheet built from the first records, and the component indices.
pub open spec fn sch_scan(recs: Seq<Map<Seq<char>, Seq<char>>>) -> (SheetView, Seq<int>)
    decreases recs.len(),
{
    if recs.len() == 0 {
        (empty_sheet(), Seq::empty())
    } else {
        let (sh, comps) = sch_scan(recs.drop_last());
        sch_step(sh, comps, recs.len() - 1, recs.last())
    }
}

/// The sheet that a list of schematic records describes.
pub open spec fn spec_schdoc(recs: Seq<Map<Seq<char>, Seq<char>>>) -> SheetView {
    sch_scan(recs).0
}

} // verus!

verus! {

/// A string property, or `default`.
pub fn text_or_exec(rec: &AltiumRecord, key: &str, default: &str) -> (r: String)
    ensures
        r@ == text_or(rec@, key@, default@),
{
    match rec.get(key) {
        Some(v) => to_string(v),
        None => to_string(default),
    }
}

/// Appends a line for each consecutive pair of `pts`.
fn push_pairs(out: &mut Vec<Line>, pts: &Vec<Point>)
    ensures
        final(out)@.map_values(|w: Line| w@) == old(out)@.map_values(|w: Line| w@) + spec_pairs(
            pts@,
        ),
        lines_uuid_v7(old(out)@) ==> lines_uuid_v7(final(out)@),
{
    let ghost before = out@.map_values(|w: Line| w@);
    if pts.len() < 2 {
        assert(out@.map_values(|w: Line| w@) =~= before + spec_pairs(pts@));
        return;
    }
    let mut i: usize = 0;
    while i + 1 < pts.len()
        invariant
            pts.len() >= 2,
            i + 1 <= pts.len(),
            out@.map_values(|w: Line| w@) == before + spec_pairs(pts@).take(i as int),
            lines_uuid_v7(old(out)@) ==> lines_uuid_v7(out@),
        decreases pts.len() - i,
    {
        let uuid = new_uuid_v7();
        let ghost prev = out@;
        let line = Line { uuid, start: pts[i], end: pts[i + 1] };
        out.push(line);
        assert(out@.map_values(|w: Line| w@) =~= prev.map_values(|w: Line| w@).push(
            (pts@[i as int], pts@[i + 1]),
        ));
        assert(spec_pairs(pts@)[i as int] == (pts@[i as int], pts@[i + 1]));
        assert(spec_pairs(pts@).take(i + 1) =~= spec_pairs(pts@).take(i as int).push(
            (pts@[i as int], pts@[i + 1]),
        ));
        assert(out@.map_values(|w: Line| w@) =~= before + spec_pairs(pts@).take(i + 1));
        i += 1;
    }
    assert(spec_pairs(pts@).take(i as int) =~= spec_pairs(pts@));
}

/// The location count of a record (see [`spec_location_count`]).
fn location_count(rec: &AltiumRecord) -> (r: usize)
    ensures
        r == spec_location_count(rec@),
{
    match rec.get_i64("LOCATIONCOUNT") {
        Some(v) => v as usize,
        None => 2,
    }
}

fn wire_points_exec(rec: &AltiumRecord) -> (r: Vec<Point>)
    ensures
        r@ == wire_points(rec@),
{
    let count = location_count(rec);
    let pts = if count >= 2 {
        points_for(rec, count)
    } else {
        Vec::new()
    };
    if pts.len() < 2 {
        let x1 = coord_or(rec, "LOCATION.X", 0);
        let y1 = coord_or(rec, "LOCATION.Y", 0);
        let x2 = coord_or(rec, "CORNER.X", saturating_add(x1, 10_000_000));
        let y2 = coord_or(rec, "CORNER.Y", y1);
        let mut v: Vec<Point> = Vec::new();
        v.push(Point { x: x1, y: y1 });
        v.push(Point { x: x2, y: y2 });
        assert(v@ =~= seq![Point { x: x1, y: y1 }, Point { x: x2, y: y2 }]);
        v
    } else {
        pts
    }
}

fn label_of(rec: &AltiumRecord, power: bool) -> (r: Label)
    ensures
        r@ == record_label(rec@, power),
        is_uuid_v7(r.uuid),
{
    let text = if power {
        text_or_exec(rec, "TEXT", "GND")
    } else {
        text_or_exec(rec, "TEXT", "")
    };
    proof {
        reveal_strlit("");
    }
    assert(""@ =~= Seq::<char>::empty());
    let x = coord_or(rec, "LOCATION.X", 0);
    let y = coord_or(rec, "LOCATION.Y", 0);
    let rotation = milli_or(rec, "ROTATION", 0);
    let uuid = new_uuid_v7();
    Label {
        uuid,
        text,
        position: Point { x, y },
        rotation,
        label_type: if power {
            LabelType::Power
        } else {
            LabelType::Net
        },
    }
}

fn component_of(rec: &AltiumRecord) -> (r: Symbol)
    ensures
        r@ == component_symbol(rec@),
        is_uuid_v7(r.uuid),
{
    proof {
        reveal_strlit("");
    }
    assert(""@ =~= Seq::<char>::empty());
    let lib_id = text_or_exec(rec, "LIBREFERENCE", "");
    let reference = text_or_exec(rec, "DESIGNATOR", "");
    let x = coord_or(rec, "LOCATION.X", 0);
    let y = coord_or(rec, "LOCATION.Y", 0);
    let rotation = milli_or(rec, "ROTATION", 0);
    let mirror_x = rec.get_bool("MIRRORED");
    let uuid = new_uuid_v7();
    let r = Symbol {
        uuid,
        lib_id,
        reference,
        value: String::new(),
        footprint: String::new(),
        position: Point { x, y },
        rotation,
        mirror_x,
        fields: Vec::new(),
    };
    assert(entries_map(r.fields@) =~= Map::<Seq<char>, Seq<char>>::empty());
    r
}

fn apply_parameter_exec(s: Symbol, name: String, text: String) -> (r: Symbol)
    ensures
        r@ == apply_parameter(s@, name@, text@),
        r.uuid == s.uuid,
{
    let ghost s0 = s@;
    let mut s = s;
    if eq_ignore_ascii_case(name.as_str(), "Comment") || eq_ignore_ascii_case(
        name.as_str(),
        "Value",
    ) {
        s.value = text;
    } else if eq_ignore_ascii_case(name.as_str(), "Footprint") {
        s.footprint = text;
    } else if eq_ignore_ascii_case(name.as_str(), "Designator") {
        if s.reference.as_str().is_empty() {
            s.reference = text;
        }
    } else {
        let ghost f0 = s.fields@;
        s.fields.push((name, text));
        assert(s.fields@.drop_last() =~= f0);
        assert(entries_map(s.fields@) == s0.fields.insert(name@, text@));
    }
    s
}

} // verus!

verus! {

/// The integer views of a list of record indices.
pub open spec fn index_ints(v: Seq<usize>) -> Seq<int> {
    v.map_values(|c: usize| c as int)
}

fn find_component(comps: &Vec<usize>, o: i64) -> (r: Option<usize>)
    ensures
        match r {
            Some(k) => first_index_int(index_ints(comps@), o as int) == Some(k as int),
            None => first_index_int(index_ints(comps@), o as int) is None,
        },
{
    let ghost ints = index_ints(comps@);
    let mut k: usize = 0;
    while k < comps.len()
        invariant
            k <= comps.len(),
            ints == index_ints(comps@),
            forall|j: int| 0 <= j < k ==> ints[j] != o as int,
        decreases comps.len() - k,
    {
        if o >= 0 && comps[k] as i128 == o as i128 {
            assert(ints[k as int] == o as int);
            let ghost w = choose|w: int|
                0 <= w < ints.len() && ints[w] == o as int && forall|j: int|
                    0 <= j < w ==> ints[j] != o as int;
            assert(w == k as int) by {
                if w > k {
                    assert(ints[k as int] != o as int);
                }
            }
            return Some(k);
        }
        assert(ints[k as int] != o as int);
        k += 1;
    }
    None
}

fn set_title(tb: &mut Vec<(String, String)>, rec: &AltiumRecord, key: &str, name: &str)
    ensures
        entries_map(final(tb)@) == title_entry(entries_map(old(tb)@), rec@, key@, name@),
{
    match rec.get(key) {
        Some(v) => {
            let ghost t0 = tb@;
            tb.push((to_string(name), to_string(v)));
            assert(tb@.drop_last() =~= t0);
        },
        None => {},
    }
}

fn apply_owner_parameter(symbols: &mut Vec<Symbol>, comps: &Vec<usize>, rec: &AltiumRecord)
    requires
        old(symbols).len() == comps.len(),
    ensures
        final(symbols).len() == comps.len(),
        forall|k: int| 0 <= k < final(symbols)@.len() ==> (#[trigger] final(symbols)@[k]).uuid
            == old(symbols)@[k].uuid,
        final(symbols)@.map_values(|s: Symbol| s@) == match spec_get_i64(rec@, "OWNERINDEX"@) {
            Some(o) => match first_index_int(index_ints(comps@), o as int) {
                Some(k) => old(symbols)@.map_values(|s: Symbol| s@).update(
                    k,
                    apply_parameter(
                        old(symbols)@[k]@,
                        text_or(rec@, "NAME"@, Seq::empty()),
                        text_or(rec@, "TEXT"@, Seq::empty()),
                    ),
                ),
                None => old(symbols)@.map_values(|s: Symbol| s@),
            },
            None => old(symbols)@.map_values(|s: Symbol| s@),
        },
{
    proof {
        reveal_strlit("");
    }
    assert(""@ =~= Seq::<char>::empty());
    match rec.get_i64("OWNERINDEX") {
        Some(o) => match find_component(comps, o) {
            Some(k) => {
                let name = text_or_exec(rec, "NAME", "");
                let text = text_or_exec(rec, "TEXT", "");
                let ghost syms0 = symbols@;
                let sym = symbols.remove(k);
                let sym = apply_parameter_exec(sym, name, text);
                symbols.insert(k, sym);
                assert(symbols@.map_values(|s: Symbol| s@) =~= syms0.map_values(|s: Symbol| s@).update(
                    k as int,
                    symbols@[k as int]@,
                ));
            },
            None => {},
        },
        None => {},
    }
}

fn sch_apply(sheet: &mut SchematicSheet, comps: &mut Vec<usize>, i: usize, rec: &AltiumRecord)
    requires
        old(sheet).symbols.len() == old(comps).len(),
    ensures
        final(sheet)@ == sch_step(old(sheet)@, index_ints(old(comps)@), i as int, rec@).0,
        index_ints(final(comps)@) == sch_step(old(sheet)@, index_ints(old(comps)@), i as int, rec@).1,
        final(sheet).symbols.len() == final(comps).len(),
        final(sheet).version == old(sheet).version,
        final(sheet).generator == old(sheet).generator,
        final(sheet).generator_version == old(sheet).generator_version,
        final(sheet).paper_size == old(sheet).paper_size,
        final(sheet).root_sheet_page == old(sheet).root_sheet_page,
        sheet_uuids_v7(*old(sheet)) ==> sheet_uuids_v7(*final(sheet)),
{
    let ghost m = rec@;
    let ghost sh0 = sheet@;
    let ghost c0 = index_ints(comps@);
    let t = match rec.get_i64("RECORD") {
        Some(t) => t,
        None => -1,
    };
    if t == 31 {
        set_title(&mut sheet.title_block, rec, "TITLE", "title");
        set_title(&mut sheet.title_block, rec, "REVISION", "rev");
        set_title(&mut sheet.title_block, rec, "DOCUMENTNUMBER", "doc_number");
        assert(sheet@ =~= sch_step(sh0, c0, i as int, m).0);
    } else if t == 1 {
        let sym = component_of(rec);
        sheet.symbols.push(sym);
        comps.push(i);
        assert(sheet@ =~= sch_step(sh0, c0, i as int, m).0);
        assert(index_ints(comps@) =~= sch_step(sh0, c0, i as int, m).1);
    } else if t == 34 {
        apply_owner_parameter(&mut sheet.symbols, comps, rec);
        assert(sheet@ =~= sch_step(sh0, c0, i as int, m).0);
    } else if t == 27 {
        let pts = wire_points_exec(rec);
        push_pairs(&mut sheet.wires, &pts);
        assert(sheet@ =~= sch_step(sh0, c0, i as int, m).0);
    } else if t == 29 {
        let x = coord_or(rec, "LOCATION.X", 0);
        let y = coord_or(rec, "LOCATION.Y", 0);
        let uuid = new_uuid_v7();
        sheet.junctions.push(Junction { uuid, position: Point { x, y } });
        assert(sheet@ =~= sch_step(sh0, c0, i as int, m).0);
    } else if t == 4 || t == 17 {
        let label = label_of(rec, t == 17);
        sheet.labels.push(label);
        assert(sheet@ =~= sch_step(sh0, c0, i as int, m).0);
    } else if t == 26 {
        let count = location_count(rec);
        let pts = points_for(rec, count);
        push_pairs(&mut sheet.buses, &pts);
        assert(sheet@ =~= sch_step(sh0, c0, i as int, m).0);
    } else if t == 25 {
        let x = coord_or(rec, "LOCATION.X", 0);
        let y = coord_or(rec, "LOCATION.Y", 0);
        let cx = coord_or(rec, "CORNER.X", saturating_add(x, 2_540_000));
        let cy = coord_or(rec, "CORNER.Y", saturating_add(y, 2_540_000));
        let uuid = new_uuid_v7();
        sheet.bus_entries.push(
            BusEntry {
                uuid,
                position: Point { x, y },
                size: (saturating_sub(cx, x), saturating_sub(cy, y)),
            },
        );
        assert(sheet@ =~= sch_step(sh0, c0, i as int, m).0);
    } else if t == 14 {
        proof {
            reveal_strlit("");
        }
        assert(""@ =~= Seq::<char>::empty());
        let name = text_or_exec(rec, "SHEETNAME", "");
        let filename = text_or_exec(rec, "FILENAME", "");
        let x = coord_or(rec, "LOCATION.X", 0);
        let y = coord_or(rec, "LOCATION.Y", 0);
        let xs = coord_or(rec, "XSIZE", 50_000_000);
        let ys = coord_or(rec, "YSIZE", 30_000_000);
        let uuid = new_uuid_v7();
        sheet.child_sheets.push(
            ChildSheet { uuid, name, filename, position: Point { x, y }, size: (xs, ys) },
        );
        assert(sheet@ =~= sch_step(sh0, c0, i as int, m).0);
    } else {
        assert(sheet@ =~= sch_step(sh0, c0, i as int, m).0);
    }
}

/// Whether every line of a list has a version-7 UUID.
pub open spec fn lines_uuid_v7(v: Seq<Line>) -> bool {
    forall|k: int| 0 <= k < v.len() ==> is_uuid_v7(#[trigger] v[k].uuid)
}

/// Whether a sheet and every item on it (symbols, wires, junctions,
/// labels, buses, bus entries and sheet symbols) have version-7 UUIDs.
pub open spec fn sheet_uuids_v7(s: SchematicSheet) -> bool {
    &&& is_uuid_v7(s.uuid)
    &&& forall|k: int| 0 <= k < s.symbols@.len() ==> is_uuid_v7(#[trigger] s.symbols@[k].uuid)
    &&& lines_uuid_v7(s.wires@)
    &&& forall|k: int| 0 <= k < s.junctions@.len() ==> is_uuid_v7(#[trigger] s.junctions@[k].uuid)
    &&& forall|k: int| 0 <= k < s.labels@.len() ==> is_uuid_v7(#[trigger] s.labels@[k].uuid)
    &&& lines_uuid_v7(s.buses@)
    &&& forall|k: int| 0 <= k < s.bus_entries@.len() ==> is_uuid_v7(
        #[trigger] s.bus_entries@[k].uuid,
    )
    &&& forall|k: int| 0 <= k < s.child_sheets@.len() ==> is_uuid_v7(
        #[trigger] s.child_sheets@[k].uuid,
    )
}

/// Converts parsed schematic records into a sheet (see [`spec_schdoc`]);
/// every item gets a fresh identifier. Never fails.
pub fn parse_schdoc_records(records: &[AltiumRecord]) -> (r: Result<
    SchematicSheet,
    AltiumImportError,
>)
    ensures
        r matches Ok(sheet) && {
            &&& sheet@ == spec_schdoc(record_views(records@))
            &&& sheet.version == 1
            &&& sheet.generator@ == "Oxide Altium Importer"@
            &&& sheet.generator_version@ == "1.0"@
            &&& sheet.paper_size@ == "A4"@
            &&& sheet.root_sheet_page@ == "1"@
            &&& sheet_uuids_v7(sheet)
        },
{
    let ghost recs = record_views(records@);
    let uuid = new_uuid_v7();
    let mut sheet = SchematicSheet {
        uuid,
        version: 1,
        generator: to_string("Oxide Altium Importer"),
        generator_version: to_string("1.0"),
        paper_size: to_string("A4"),
        root_sheet_page: to_string("1"),
        symbols: Vec::new(),
        wires: Vec::new(),
        junctions: Vec::new(),
        labels: Vec::new(),
        buses: Vec::new(),
        bus_entries: Vec::new(),
        child_sheets: Vec::new(),
        title_block: Vec::new(),
    };
    let mut comps: Vec<usize> = Vec::new();
    assert(sheet@ =~= empty_sheet());
    let mut i: usize = 0;
    while i < records.len()
        invariant
            i <= records.len(),
            recs == record_views(records@),
            sheet@ == sch_scan(recs.take(i as int)).0,
            index_ints(comps@) == sch_scan(recs.take(i as int)).1,
            sheet.symbols.len() == comps.len(),
            sheet.version == 1,
            sheet.generator@ == "Oxide Altium Importer"@,
            sheet.generator_version@ == "1.0"@,
            sheet.paper_size@ == "A4"@,
            sheet.root_sheet_page@ == "1"@,
            sheet_uuids_v7(sheet),
        decreases records.len() - i,
    {
        assert(recs.take(i + 1).drop_last() =~= recs.take(i as int));
        assert(recs.take(i + 1).last() == records@[i as int]@);
        sch_apply(&mut sheet, &mut comps, i, &records[i]);
        i += 1;
    }
    assert(recs.take(records.len() as int) =~= recs);
    Ok(sheet)
}

/// A `RECORD=14` record adds one sheet symbol at the end of the sheet's
/// list: its width is the record's `XSIZE` in nanometres (50 mm when
/// absent or unreadable) and its height its `YSIZE` (30 mm); nothing
/// else on the sheet changes.
pub proof fn law_sheet_symbol_size(
    sh: SheetView,
    comps: Seq<int>,
    idx: int,
    m: Map<Seq<char>, Seq<char>>,
)
    requires
        spec_get_i64(m, "RECORD"@) == Some(14i64),
    ensures
        sch_step(sh, comps, idx, m).0.child_sheets.len() == sh.child_sheets.len() + 1,
        sch_step(sh, comps, idx, m).0.child_sheets.drop_last() == sh.child_sheets,
        sch_step(sh, comps, idx, m).0.child_sheets.last().size.0 == (match crate::altium::record::spec_get_fixed(
            m,
            "XSIZE"@,
            25400,
        ) {
            Some(v) => v,
            None => 50_000_000i64,
        }),
        sch_step(sh, comps, idx, m).0.child_sheets.last().size.1 == (match crate::altium::record::spec_get_fixed(
            m,
            "YSIZE"@,
            25400,
        ) {
            Some(v) => v,
            None => 30_000_000i64,
        }),
        sch_step(sh, comps, idx, m).0.symbols == sh.symbols,
        sch_step(sh, comps, idx, m).0.wires == sh.wires,
        sch_step(sh, comps, idx, m).1 == comps,
{
    assert(sch_step(sh, comps, idx, m).0.child_sheets.drop_last() =~= sh.child_sheets);
}

/// A component record places a symbol with library id `LIBREFERENCE`
/// and reference `DESIGNATOR` (empty when absent), at `LOCATION.X` /
/// `LOCATION.Y` (0), rotated by `ROTATION` (thousandths of a degree),
/// mirrored when `MIRRORED` is true, with no value, footprint or fields.
pub proof fn law_component_symbol_fields(m: Map<Seq<char>, Seq<char>>)
    ensures
        component_symbol(m).lib_id == (if m.contains_key("LIBREFERENCE"@) {
            m["LIBREFERENCE"@]
        } else {
            Seq::<char>::empty()
        }),
        component_symbol(m).reference == (if m.contains_key("DESIGNATOR"@) {
            m["DESIGNATOR"@]
        } else {
            Seq::<char>::empty()
        }),
        component_symbol(m).position.x == spec_coord_or(m, "LOCATION.X"@, 0),
        component_symbol(m).position.y == spec_coord_or(m, "LOCATION.Y"@, 0),
        component_symbol(m).rotation == spec_milli_or(m, "ROTATION"@, 0),
        component_symbol(m).mirror_x == crate::altium::record::spec_get_bool(m, "MIRRORED"@),
        component_symbol(m).value.len() == 0,
        component_symbol(m).footprint.len() == 0,
        component_symbol(m).fields == Map::<Seq<char>, Seq<char>>::empty(),
{
}

/// A parameter named `Comment` or `Value` (any ASCII case) sets the
/// symbol's value, `Footprint` its footprint, `Designator` its reference
/// only while that is empty; any other name adds a field. Nothing else
/// of the symbol changes.
pub proof fn law_parameter_effect(s: SymbolView, name: Seq<char>, text: Seq<char>)
    ensures
        ({
            let r = apply_parameter(s, name, text);
            let is_value = spec_eq_ignore_ascii_case(name, "Comment"@) || spec_eq_ignore_ascii_case(
                name,
                "Value"@,
            );
            let is_fp = spec_eq_ignore_ascii_case(name, "Footprint"@);
            let is_des = spec_eq_ignore_ascii_case(name, "Designator"@);
            &&& r.lib_id == s.lib_id && r.position == s.position && r.rotation == s.rotation
                && r.mirror_x == s.mirror_x
            &&& is_value ==> r.value == text && r.footprint == s.footprint && r.reference
                == s.reference && r.fields == s.fields
            &&& (!is_value && is_fp) ==> r.footprint == text && r.value == s.value && r.reference
                == s.reference && r.fields == s.fields
            &&& (!is_value && !is_fp && is_des) ==> r.reference == (if s.reference.len() == 0 {
                text
            } else {
                s.reference
            }) && r.value == s.value && r.footprint == s.footprint && r.fields == s.fields
            &&& (!is_value && !is_fp && !is_des) ==> r.fields == s.fields.insert(name, text)
                && r.value == s.value && r.footprint == s.footprint && r.reference == s.reference
        }),
{
}

/// A net label (`power` false) or power port: text from `TEXT` (empty,
/// or `GND` for a power port), position from `LOCATION.X` / `LOCATION.Y`
/// (0), rotation from `ROTATION`, and the matching label type.
pub proof fn law_label_fields(m: Map<Seq<char>, Seq<char>>, power: bool)
    ensures
        record_label(m, power).text == (if m.contains_key("TEXT"@) {
            m["TEXT"@]
        } else if power {
            "GND"@
        } else {
            Seq::<char>::empty()
        }),
        record_label(m, power).position.x == spec_coord_or(m, "LOCATION.X"@, 0),
        record_label(m, power).position.y == spec_coord_or(m, "LOCATION.Y"@, 0),
        record_label(m, power).rotation == spec_milli_or(m, "ROTATION"@, 0),
        record_label(m, power).label_type == (if power {
            LabelType::Power
        } else {
            LabelType::Net
        }),
{
}

/// A bus entry sits at `LOCATION` and extends to `CORNER` (2.54 mm
/// further in each direction when absent): its size is corner minus
/// position, saturated to `i64`.
pub proof fn law_bus_entry_extent(m: Map<Seq<char>, Seq<char>>)
    ensures
        ({
            let x = spec_coord_or(m, "LOCATION.X"@, 0);
            let y = spec_coord_or(m, "LOCATION.Y"@, 0);
            &&& record_bus_entry(m).0 == (Point { x, y })
            &&& record_bus_entry(m).1.0 == sat_sub(
                spec_coord_or(m, "CORNER.X"@, sat_add(x, 2_540_000)),
                x,
            )
            &&& record_bus_entry(m).1.1 == sat_sub(
                spec_coord_or(m, "CORNER.Y"@, sat_add(y, 2_540_000)),
                y,
            )
        }),
{
}

/// A sheet symbol is named by `SHEETNAME`, refers to `FILENAME` (both
/// empty when absent) and sits at `LOCATION.X` / `LOCATION.Y` (0).
pub proof fn law_sheet_symbol_fields(m: Map<Seq<char>, Seq<char>>)
    ensures
        record_child_sheet(m).name == (if m.contains_key("SHEETNAME"@) {
            m["SHEETNAME"@]
        } else {
            Seq::<char>::empty()
        }),
        record_child_sheet(m).filename == (if m.contains_key("FILENAME"@) {
            m["FILENAME"@]
        } else {
            Seq::<char>::empty()
        }),
        record_child_sheet(m).position.x == spec_coord_or(m, "LOCATION.X"@, 0),
        record_child_sheet(m).position.y == spec_coord_or(m, "LOCATION.Y"@, 0),
{
}

/// A junction record (`RECORD=29`) adds one junction at `LOCATION.X` /
/// `LOCATION.Y` (0) and nothing else.
pub proof fn law_junction_step(sh: SheetView, comps: Seq<int>, idx: int, m: Map<Seq<char>, Seq<char>>)
    requires
        spec_get_i64(m, "RECORD"@) == Some(29i64),
    ensures
        sch_step(sh, comps, idx, m).0.junctions == sh.junctions.push(
            Point { x: spec_coord_or(m, "LOCATION.X"@, 0), y: spec_coord_or(m, "LOCATION.Y"@, 0) },
        ),
        sch_step(sh, comps, idx, m).0.symbols == sh.symbols,
        sch_step(sh, comps, idx, m).0.wires == sh.wires,
        sch_step(sh, comps, idx, m).0.labels == sh.labels,
{
}

/// A sheet record (`RECORD=31`) sets the title block's `title`, `rev`
/// and `doc_number` to its `TITLE`, `REVISION` and `DOCUMENTNUMBER` where
/// it has them, keeping the earlier entry otherwise.
pub proof fn law_title_block_step(
    sh: SheetView,
    comps: Seq<int>,
    idx: int,
    m: Map<Seq<char>, Seq<char>>,
)
    requires
        spec_get_i64(m, "RECORD"@) == Some(31i64),
    ensures
        ({
            let tb = sch_step(sh, comps, idx, m).0.title_block;
            &&& m.contains_key("TITLE"@) ==> tb.contains_key("title"@) && tb["title"@]
                == m["TITLE"@]
            &&& m.contains_key("REVISION"@) ==> tb.contains_key("rev"@) && tb["rev"@]
                == m["REVISION"@]
            &&& m.contains_key("DOCUMENTNUMBER"@) ==> tb.contains_key("doc_number"@)
                && tb["doc_number"@] == m["DOCUMENTNUMBER"@]
            &&& !m.contains_key("TITLE"@) ==> tb.contains_key("title"@) == sh.title_block.contains_key(
                "title"@,
            ) && (tb.contains_key("title"@) ==> tb["title"@] == sh.title_block["title"@])
        }),
        sch_step(sh, comps, idx, m).0.symbols == sh.symbols,
{
    reveal_strlit("title");
    reveal_strlit("rev");
    reveal_strlit("doc_number");
    assert("title"@.len() == 5 && "rev"@.len() == 3 && "doc_number"@.len() == 10);
    assert("title"@ != "rev"@);
    assert("title"@[0] != "doc_number"@[0]);
    assert("title"@ != "doc_number"@);
    assert("rev"@ != "doc_number"@);
}

/// A wire record with fewer than two readable numbered vertices is the
/// segment from `LOCATION` (0) to `CORNER`, whose x is 10 mm right of
/// the start and whose y is the start's when absent.
pub proof fn law_wire_fallback(m: Map<Seq<char>, Seq<char>>)
    requires
        spec_location_count(m) < 2 || spec_points(m, spec_location_count(m) as nat).len() < 2,
    ensures
        ({
            let x1 = spec_coord_or(m, "LOCATION.X"@, 0);
            let y1 = spec_coord_or(m, "LOCATION.Y"@, 0);
            wire_points(m) == seq![
                Point { x: x1, y: y1 },
                Point {
                    x: spec_coord_or(m, "CORNER.X"@, sat_add(x1, 10_000_000)),
                    y: spec_coord_or(m, "CORNER.Y"@, y1),
                },
            ]
        }),
{
}

/// Reading schematic records places one symbol per component record
/// (`RECORD=1`), in order: symbol `k` was placed by record `comps[k]`,
/// a component record, and those indices increase.
pub proof fn law_symbols_follow_component_records(recs: Seq<Map<Seq<char>, Seq<char>>>)
    ensures
        ({
            let (sh, comps) = sch_scan(recs);
            &&& sh.symbols.len() == comps.len()
            &&& forall|k: int|
                0 <= k < comps.len() ==> 0 <= #[trigger] comps[k] < recs.len() && record_type(
                    recs[comps[k]],
                ) == 1
            &&& forall|a: int, b: int| 0 <= a < b < comps.len() ==> comps[a] < comps[b]
        }),
    decreases recs.len(),
{
    if recs.len() > 0 {
        let r0 = recs.drop_last();
        law_symbols_follow_component_records(r0);
        let (sh0, c0) = sch_scan(r0);
        let m = recs.last();
        let (sh, comps) = sch_scan(recs);
        assert forall|k: int| 0 <= k < c0.len() implies 0 <= #[trigger] c0[k] < recs.len()
            && record_type(recs[c0[k]]) == 1 by {
            assert(recs[c0[k]] == r0[c0[k]]);
        }
        if record_type(m) == 1 {
            assert(comps == c0.push(recs.len() - 1));
            assert forall|k: int| 0 <= k < comps.len() implies 0 <= #[trigger] comps[k] < recs.len()
                && record_type(recs[comps[k]]) == 1 by {
                if k < c0.len() {
                    assert(comps[k] == c0[k]);
                }
            }
        } else {
            assert(comps == c0);
        }
    }
}

} // verus!
