//! Conversion of Altium schematic library (`.SchLib`) records into library
//! symbols.

use vstd::prelude::*;
use crate::altium::common::{
    coord_or, points_for, sat_add, saturating_add, spec_coord_or, spec_location_count, spec_pairs,
    spec_points, Point,
};
use crate::altium::error::AltiumImportError;
use crate::altium::record::{spec_get_i64, AltiumRecord};
use crate::altium::schdoc::{record_type, text_or, text_or_exec};
use crate::altium::stream::record_views;
use crate::ids::{is_uuid_v7, new_uuid_v7, now_millis};
use crate::text::to_string;

verus! {

/// Electrical type of a symbol pin.
#[derive(Debug, Clone, Copy, PartialEq, Eq, Structural)]
pub enum PinDirection {
    Input,
    Bidirectional,
    Output,
    OpenCollector,
    Passive,
    Power,
}

/// Direction in which a pin points away from the symbol body.
#[derive(Debug, Clone, Copy, PartialEq, Eq, Structural)]
pub enum PinOrientation {
    Right,
    Up,
    Left,
    Down,
}

/// A symbol pin.
#[derive(Debug)]
pub struct SymbolPin {
    pub number: String,
    pub name: String,
    pub electrical: PinDirection,
    pub position: Point,
    pub orientation: PinOrientation,
    /// Pin length in nanometres.
    pub length: i64,
}

/// What a pin holds.
#[verifier::ext_equal]
pub struct PinView {
    pub number: Seq<char>,
    pub name: Seq<char>,
    pub electrical: PinDirection,
    pub position: Point,
    pub orientation: PinOrientation,
    pub length: i64,
}

impl View for SymbolPin {
    type V = PinView;

    open spec fn view(&self) -> PinView {
        PinView {
            number: self.number@,
            name: self.name@,
            electrical: self.electrical,
            position: self.position,
            orientation: self.orientation,
            length: self.length,
        }
    }
}

/// The shape of a symbol graphic.
#[derive(Debug, Clone, Copy, PartialEq, Eq, Structural)]
pub enum GraphicKind {
    Rectangle { from: Point, to: Point },
    Line { from: Point, to: Point },
}

/// A drawn symbol graphic; stroke width in nanometres.
#[derive(Debug, Clone, Copy, PartialEq, Eq, Structural)]
pub struct SymbolGraphic {
    pub kind: GraphicKind,
    pub stroke_width: i64,
}

/// A library symbol.
#[derive(Debug)]
pub struct LibSymbol {
    pub uuid: u128,
    pub name: String,
    pub pins: Vec<SymbolPin>,
    pub graphics: Vec<SymbolGraphic>,
    pub designator: String,
    pub comment: String,
    pub description: String,
    pub version: String,
    pub released: bool,
    pub part_count: u32,
    /// Creation and update times, milliseconds since the Unix epoch.
    pub created: i64,
    pub updated: i64,
}

/// What a library symbol holds, apart from its identifier and times.
#[verifier::ext_equal]
pub struct LibSymbolView {
    pub name: Seq<char>,
    pub pins: Seq<PinView>,
    pub graphics: Seq<SymbolGraphic>,
    pub designator: Seq<char>,
    pub comment: Seq<char>,
    pub description: Seq<char>,
    pub version: Seq<char>,
    pub released: bool,
    pub part_count: u32,
}

impl View for LibSymbol {
    type V = LibSymbolView;

    open spec fn view(&self) -> LibSymbolView {
        LibSymbolView {
            name: self.name@,
            pins: self.pins@.map_values(|p: SymbolPin| p@),
            graphics: self.graphics@,
            designator: self.designator@,
            comment: self.comment@,
            description: self.description@,
            version: self.version@,
            released: self.released,
            part_count: self.part_count,
        }
    }
}

/// Stroke width of imported symbol graphics: 0.15 mm.
pub const SYMBOL_STROKE_NM: i64 = 150_000;

/// The symbol that a component header record (`RECORD=1`) starts.
pub open spec fn header_symbol(m: Map<Seq<char>, Seq<char>>) -> LibSymbolView {
    LibSymbolView {
        name: if m.contains_key("LIBREFERENCE"@) {
            m["LIBREFERENCE"@]
        } else {
            text_or(m, "NAME"@, "ALT_SYM"@)
        },
        pins: Seq::empty(),
        graphics: Seq::empty(),
        designator: text_or(m, "DESIGNATOR"@, "U?"@),
        comment: text_or(m, "COMMENT"@, "*"@),
        description: text_or(m, "DESCRIPTION"@, Seq::empty()),
        version: "0.0.1"@,
        released: false,
        part_count: 1,
    }
}

/// Pin orientation from the low two bits of `PINCONGLOMERATE` (0 to 3).
pub open spec fn orientation_of(bits: int) -> PinOrientation {
    if bits == 0 {
        PinOrientation::Right
    } else if bits == 1 {
        PinOrientation::Up
    } else if bits == 2 {
        PinOrientation::Left
    } else {
        PinOrientation::Down
    }
}

/// Pin electrical type from `ELECTRICAL` (passive when unknown).
pub open spec fn electrical_of(e: i64) -> PinDirection {
    if e == 0 {
        PinDirection::Input
    } else if e == 1 {
        PinDirection::Bidirectional
    } else if e == 2 {
        PinDirection::Output
    } else if e == 3 {
        PinDirection::OpenCollector
    } else if e == 7 {
        PinDirection::Power
    } else {
        PinDirection::Passive
    }
}

/// The pin of a `RECORD=2` record (length 2.54 mm when absent).
pub open spec fn record_pin(m: Map<Seq<char>, Seq<char>>) -> PinView {
    PinView {
        number: text_or(m, "DESIGNATOR"@, "1"@),
        name: text_or(m, "NAME"@, Seq::empty()),
        electrical: electrical_of(
            match spec_get_i64(m, "ELECTRICAL"@) {
                Some(e) => e,
                None => 0i64,
            },
        ),
        position: Point {
            x: spec_coord_or(m, "LOCATION.X"@, 0),
            y: spec_coord_or(m, "LOCATION.Y"@, 0),
        },
        orientation: orientation_of(
            (match spec_get_i64(m, "PINCONGLOMERATE"@) {
                Some(c) => c,
                None => 0i64,
            } & 3) as int,
        ),
        length: spec_coord_or(m, "PINLENGTH"@, 2_540_000),
    }
}

/// The rectangle of a `RECORD=6` record (10 mm square when the corner is
/// absent).
pub open spec fn record_rectangle(m: Map<Seq<char>, Seq<char>>) -> SymbolGraphic {
    let x1 = spec_coord_or(m, "LOCATION.X"@, 0);
    let y1 = spec_coord_or(m, "LOCATION.Y"@, 0);
    let x2 = spec_coord_or(m, "CORNER.X"@, sat_add(x1, 10_000_000));
    let y2 = spec_coord_or(m, "CORNER.Y"@, sat_add(y1, 10_000_000));
    SymbolGraphic {
        kind: GraphicKind::Rectangle { from: Point { x: x1, y: y1 }, to: Point { x: x2, y: y2 } },
        stroke_width: SYMBOL_STROKE_NM,
    }
}

/// The line graphics of a polyline record (`RECORD=5`).
pub open spec fn record_lines(m: Map<Seq<char>, Seq<char>>) -> Seq<SymbolGraphic> {
    spec_pairs(spec_points(m, spec_location_count(m) as nat)).map_values(
        |p: (Point, Point)|
            SymbolGraphic {
                kind: GraphicKind::Line { from: p.0, to: p.1 },
                stroke_width: SYMBOL_STROKE_NM,
            },
    )
}

/// The symbol being read after one more record, if there is one.
pub open spec fn lib_update(cur: LibSymbolView, m: Map<Seq<char>, Seq<char>>) -> LibSymbolView {
    let t = record_type(m);
    if t == 2 {
        LibSymbolView { pins: cur.pins.push(record_pin(m)), ..cur }
    } else if t == 6 {
        LibSymbolView { graphics: cur.graphics.push(record_rectangle(m)), ..cur }
    } else if t == 5 {
        LibSymbolView { graphics: cur.graphics + record_lines(m), ..cur }
    } else {
        cur
    }
}

/// Completed symbols and the symbol being read, after the records.
pub open spec fn lib_scan(recs: Seq<Map<Seq<char>, Seq<char>>>) -> (
    Seq<LibSymbolView>,
    Option<LibSymbolView>,
)
    decreases recs.len(),
{
    if recs.len() == 0 {
        (Seq::empty(), None)
    } else {
        let (done, cur) = lib_scan(recs.drop_last());
        let m = recs.last();
        if record_type(m) == 1 {
            match cur {
                Some(c) => (done.push(c), Some(header_symbol(m))),
                None => (done, Some(header_symbol(m))),
            }
        } else {
            match cur {
                Some(c) => (done, Some(lib_update(c, m))),
                None => (done, None),
            }
        }
    }
}

/// The symbols that a list of library records describes: a header record
/// starts a symbol, and the pin and graphic records after it belong to it.
pub open spec fn spec_schlib(recs: Seq<Map<Seq<char>, Seq<char>>>) -> Seq<LibSymbolView> {
    match lib_scan(recs).1 {
        Some(c) => lib_scan(recs).0.push(c),
        None => lib_scan(recs).0,
    }
}

fn header_symbol_exec(rec: &AltiumRecord) -> (r: LibSymbol)
    ensures
        r@ == header_symbol(rec@),
        r.created == r.updated,
        is_uuid_v7(r.uuid),
{
    proof {
        reveal_strlit("");
    }
    assert(""@ =~= Seq::<char>::empty());
    let name = match rec.get("LIBREFERENCE") {
        Some(v) => to_string(v),
        None => text_or_exec(rec, "NAME", "ALT_SYM"),
    };
    let description = text_or_exec(rec, "DESCRIPTION", "");
    let designator = text_or_exec(rec, "DESIGNATOR", "U?");
    let comment = text_or_exec(rec, "COMMENT", "*");
    let now = now_millis();
    let uuid = new_uuid_v7();
    let r = LibSymbol {
        uuid,
        name,
        pins: Vec::new(),
        graphics: Vec::new(),
        designator,
        comment,
        description,
        version: to_string("0.0.1"),
        released: false,
        part_count: 1,
        created: now,
        updated: now,
    };
    assert(r@ =~= header_symbol(rec@));
    r
}

fn pin_exec(rec: &AltiumRecord) -> (r: SymbolPin)
    ensures
        r@ == record_pin(rec@),
{
    proof {
        reveal_strlit("");
    }
    assert(""@ =~= Seq::<char>::empty());
    let number = text_or_exec(rec, "DESIGNATOR", "1");
    let name = text_or_exec(rec, "NAME", "");
    let x = coord_or(rec, "LOCATION.X", 0);
    let y = coord_or(rec, "LOCATION.Y", 0);
    let length = coord_or(rec, "PINLENGTH", 2_540_000);
    let c = match rec.get_i64("PINCONGLOMERATE") {
        Some(c) => c,
        None => 0,
    };
    let bits = c & 3;
    let orientation = if bits == 0 {
        PinOrientation::Right
    } else if bits == 1 {
        PinOrientation::Up
    } else if bits == 2 {
        PinOrientation::Left
    } else {
        PinOrientation::Down
    };
    let e = match rec.get_i64("ELECTRICAL") {
        Some(e) => e,
        None => 0,
    };
    let electrical = if e == 0 {
        PinDirection::Input
    } else if e == 1 {
        PinDirection::Bidirectional
    } else if e == 2 {
        PinDirection::Output
    } else if e == 3 {
        PinDirection::OpenCollector
    } else if e == 7 {
        PinDirection::Power
    } else {
        PinDirection::Passive
    };
    let r = SymbolPin { number, name, electrical, position: Point { x, y }, orientation, length };
    assert(r@ =~= record_pin(rec@));
    r
}

fn rectangle_exec(rec: &AltiumRecord) -> (r: SymbolGraphic)
    ensures
        r == record_rectangle(rec@),
{
    let x1 = coord_or(rec, "LOCATION.X", 0);
    let y1 = coord_or(rec, "LOCATION.Y", 0);
    let x2 = coord_or(rec, "CORNER.X", saturating_add(x1, 10_000_000));
    let y2 = coord_or(rec, "CORNER.Y", saturating_add(y1, 10_000_000));
    SymbolGraphic {
        kind: GraphicKind::Rectangle { from: Point { x: x1, y: y1 }, to: Point { x: x2, y: y2 } },
        stroke_width: SYMBOL_STROKE_NM,
    }
}

fn push_lines(out: &mut Vec<SymbolGraphic>, rec: &AltiumRecord)
    ensures
        final(out)@ == old(out)@ + record_lines(rec@),
{
    let count = match rec.get_i64("LOCATIONCOUNT") {
        Some(v) => v as usize,
        None => 2,
    };
    let pts = points_for(rec, count);
    let ghost before = out@;
    let ghost lines = record_lines(rec@);
    if pts.len() < 2 {
        assert(lines =~= Seq::<SymbolGraphic>::empty());
        assert(out@ =~= before + lines);
        return;
    }
    let mut i: usize = 0;
    while i + 1 < pts.len()
        invariant
            pts.len() >= 2,
            i + 1 <= pts.len(),
            pts@ == spec_points(rec@, count as nat),
            count == spec_location_count(rec@),
            lines == record_lines(rec@),
            lines.len() == pts.len() - 1,
            out@ == before + lines.take(i as int),
        decreases pts.len() - i,
    {
        let g = SymbolGraphic {
            kind: GraphicKind::Line { from: pts[i], to: pts[i + 1] },
            stroke_width: SYMBOL_STROKE_NM,
        };
        assert(lines[i as int] == g);
        out.push(g);
        assert(lines.take(i + 1) =~= lines.take(i as int).push(g));
        i += 1;
    }
    assert(lines.take(i as int) =~= lines);
}

fn lib_apply(cur: &mut LibSymbol, rec: &AltiumRecord)
    ensures
        final(cur)@ == lib_update(old(cur)@, rec@),
        final(cur).created == old(cur).created,
        final(cur).updated == old(cur).updated,
        final(cur).uuid == old(cur).uuid,
{
    let ghost c0 = cur@;
    let t = match rec.get_i64("RECORD") {
        Some(t) => t,
        None => -1,
    };
    if t == 2 {
        let pin = pin_exec(rec);
        cur.pins.push(pin);
        assert(cur@ =~= lib_update(c0, rec@));
    } else if t == 6 {
        let g = rectangle_exec(rec);
        cur.graphics.push(g);
        assert(cur@ =~= lib_update(c0, rec@));
    } else if t == 5 {
        push_lines(&mut cur.graphics, rec);
        assert(cur@ =~= lib_update(c0, rec@));
    }
}

/// The views of a list of library symbols.
pub open spec fn lib_views(v: Seq<LibSymbol>) -> Seq<LibSymbolView> {
    v.map_values(|s: LibSymbol| s@)
}

/// Converts parsed library records into symbols (see [`spec_schlib`]);
/// every symbol gets a fresh identifier and the current time, as both its
/// creation and its update time, and a version-7 UUID. Never fails.
pub fn parse_symbols_from_records(records: &[AltiumRecord]) -> (r: Result<
    Vec<LibSymbol>,
    AltiumImportError,
>)
    ensures
        r matches Ok(v) && lib_views(v@) == spec_schlib(record_views(records@)) && forall|k: int|
            0 <= k < v@.len() ==> (#[trigger] v@[k]).created == v@[k].updated && is_uuid_v7(
                v@[k].uuid,
            ),
{
    let ghost recs = record_views(records@);
    let mut symbols: Vec<LibSymbol> = Vec::new();
    let mut current: Option<LibSymbol> = None;
    let mut i: usize = 0;
    while i < records.len()
        invariant
            i <= records.len(),
            recs == record_views(records@),
            lib_views(symbols@) == lib_scan(recs.take(i as int)).0,
            match current {
                Some(c) => lib_scan(recs.take(i as int)).1 == Some(c@),
                None => lib_scan(recs.take(i as int)).1 is None,
            },
            forall|k: int| 0 <= k < symbols@.len() ==> (#[trigger] symbols@[k]).created
                == symbols@[k].updated && is_uuid_v7(symbols@[k].uuid),
            current matches Some(c) ==> c.created == c.updated && is_uuid_v7(c.uuid),
        decreases records.len() - i,
    {
        let rec = &records[i];
        assert(recs.take(i + 1).drop_last() =~= recs.take(i as int));
        assert(recs.take(i + 1).last() == rec@);
        let t = match rec.get_i64("RECORD") {
            Some(t) => t,
            None => -1,
        };
        if t == 1 {
            let next = header_symbol_exec(rec);
            match current.take() {
                Some(prev) => {
                    let ghost s0 = symbols@;
                    symbols.push(prev);
                    assert(lib_views(symbols@) =~= lib_views(s0).push(symbols@.last()@));
                },
                None => {},
            }
            current = Some(next);
        } else {
            match current.take() {
                Some(c) => {
                    let mut c = c;
                    lib_apply(&mut c, rec);
                    current = Some(c);
                },
                None => {},
            }
        }
        i += 1;
    }
    assert(recs.take(records.len() as int) =~= recs);
    match current {
        Some(last) => {
            let ghost s0 = symbols@;
            symbols.push(last);
            assert(lib_views(symbols@) =~= lib_views(s0).push(symbols@.last()@));
        },
        None => {},
    }
    Ok(symbols)
}

/// A pin's orientation is given by the low two bits of its
/// `PINCONGLOMERATE` (0 when absent): 0 right, 1 up, 2 left, 3 down.
pub proof fn law_pin_orientation(m: Map<Seq<char>, Seq<char>>)
    ensures
        ({
            let c = match spec_get_i64(m, "PINCONGLOMERATE"@) {
                Some(c) => c,
                None => 0i64,
            };
            &&& (c & 3) == 0 ==> record_pin(m).orientation == PinOrientation::Right
            &&& (c & 3) == 1 ==> record_pin(m).orientation == PinOrientation::Up
            &&& (c & 3) == 2 ==> record_pin(m).orientation == PinOrientation::Left
            &&& (c & 3) == 3 ==> record_pin(m).orientation == PinOrientation::Down
        }),
{
}

/// A pin record: number from `DESIGNATOR` (`1` when absent), name from
/// `NAME` (empty), position from `LOCATION.X` / `LOCATION.Y` (0) and
/// length from `PINLENGTH` (2.54 mm), coordinates in nanometres.
pub proof fn law_pin_fields(m: Map<Seq<char>, Seq<char>>)
    ensures
        record_pin(m).number == (if m.contains_key("DESIGNATOR"@) {
            m["DESIGNATOR"@]
        } else {
            "1"@
        }),
        record_pin(m).name == (if m.contains_key("NAME"@) {
            m["NAME"@]
        } else {
            Seq::<char>::empty()
        }),
        record_pin(m).position.x == spec_coord_or(m, "LOCATION.X"@, 0),
        record_pin(m).position.y == spec_coord_or(m, "LOCATION.Y"@, 0),
        record_pin(m).length == spec_coord_or(m, "PINLENGTH"@, 2_540_000),
{
}

/// A pin's electrical type from `ELECTRICAL` (0 when absent): 0 input,
/// 1 bidirectional, 2 output, 3 open collector, 7 power, anything else
/// passive.
pub proof fn law_pin_electrical(m: Map<Seq<char>, Seq<char>>)
    ensures
        ({
            let e = match spec_get_i64(m, "ELECTRICAL"@) {
                Some(e) => e,
                None => 0i64,
            };
            &&& e == 0 ==> record_pin(m).electrical == PinDirection::Input
            &&& e == 1 ==> record_pin(m).electrical == PinDirection::Bidirectional
            &&& e == 2 ==> record_pin(m).electrical == PinDirection::Output
            &&& e == 3 ==> record_pin(m).electrical == PinDirection::OpenCollector
            &&& e == 7 ==> record_pin(m).electrical == PinDirection::Power
            &&& (e != 0 && e != 1 && e != 2 && e != 3 && e != 7) ==> record_pin(m).electrical
                == PinDirection::Passive
        }),
{
}

/// A library header record: name from `LIBREFERENCE`, else `NAME`, else
/// `ALT_SYM`; designator `U?`, comment `*` and empty description when
/// absent; version 0.0.1, unreleased, one part, no pins or graphics.
pub proof fn law_header_symbol_fields(m: Map<Seq<char>, Seq<char>>)
    ensures
        header_symbol(m).name == (if m.contains_key("LIBREFERENCE"@) {
            m["LIBREFERENCE"@]
        } else if m.contains_key("NAME"@) {
            m["NAME"@]
        } else {
            "ALT_SYM"@
        }),
        header_symbol(m).designator == (if m.contains_key("DESIGNATOR"@) {
            m["DESIGNATOR"@]
        } else {
            "U?"@
        }),
        header_symbol(m).comment == (if m.contains_key("COMMENT"@) {
            m["COMMENT"@]
        } else {
            "*"@
        }),
        header_symbol(m).description == (if m.contains_key("DESCRIPTION"@) {
            m["DESCRIPTION"@]
        } else {
            Seq::<char>::empty()
        }),
        header_symbol(m).version == "0.0.1"@,
        !header_symbol(m).released,
        header_symbol(m).part_count == 1,
        header_symbol(m).pins.len() == 0,
        header_symbol(m).graphics.len() == 0,
{
}

/// A rectangle record spans from `LOCATION` to `CORNER` (10 mm further in
/// each direction when the corner is absent), with the symbol stroke.
pub proof fn law_rectangle_corners(m: Map<Seq<char>, Seq<char>>)
    ensures
        ({
            let x1 = spec_coord_or(m, "LOCATION.X"@, 0);
            let y1 = spec_coord_or(m, "LOCATION.Y"@, 0);
            &&& record_rectangle(m).kind == (GraphicKind::Rectangle {
                from: Point { x: x1, y: y1 },
                to: Point {
                    x: spec_coord_or(m, "CORNER.X"@, sat_add(x1, 10_000_000)),
                    y: spec_coord_or(m, "CORNER.Y"@, sat_add(y1, 10_000_000)),
                },
            })
            &&& record_rectangle(m).stroke_width == 150_000
        }),
{
}

/// In an open library symbol, a pin record (`RECORD=2`) appends its pin,
/// a rectangle record (`RECORD=6`) its rectangle, and nothing else of the
/// symbol changes.
pub proof fn law_symbol_record_appends(cur: LibSymbolView, m: Map<Seq<char>, Seq<char>>)
    ensures
        spec_get_i64(m, "RECORD"@) == Some(2i64) ==> lib_update(cur, m).pins == cur.pins.push(
            record_pin(m),
        ) && lib_update(cur, m).graphics == cur.graphics,
        spec_get_i64(m, "RECORD"@) == Some(6i64) ==> lib_update(cur, m).graphics
            == cur.graphics.push(record_rectangle(m)) && lib_update(cur, m).pins == cur.pins,
        lib_update(cur, m).name == cur.name,
        lib_update(cur, m).designator == cur.designator,
        lib_update(cur, m).comment == cur.comment,
{
}

/// The number of library header records (`RECORD=1`).
pub open spec fn header_record_count(recs: Seq<Map<Seq<char>, Seq<char>>>) -> nat
    decreases recs.len(),
{
    if recs.len() == 0 {
        0
    } else {
        header_record_count(recs.drop_last()) + if record_type(recs.last()) == 1 {
            1nat
        } else {
            0nat
        }
    }
}

/// A library yields exactly one symbol per header record.
pub proof fn law_one_symbol_per_header(recs: Seq<Map<Seq<char>, Seq<char>>>)
    ensures
        spec_schlib(recs).len() == header_record_count(recs),
        lib_scan(recs).1 is Some <==> header_record_count(recs) > 0,
    decreases recs.len(),
{
    if recs.len() > 0 {
        law_one_symbol_per_header(recs.drop_last());
    }
}

} // verus!
