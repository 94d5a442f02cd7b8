//! Conversion of Altium footprint library (`.PcbLib`) records into
//! footprints.

use vstd::prelude::*;
use crate::altium::common::{coord_or, milli_or, spec_coord_or, spec_milli_or, Point};
use crate::altium::error::AltiumImportError;
use crate::altium::record::{spec_get_positive, AltiumRecord};
use crate::altium::schdoc::text_or;
use crate::altium::stream::record_views;
use crate::ids::{is_uuid_v7, new_uuid_v7};
use crate::text::{eq_ignore_ascii_case, spec_eq_ignore_ascii_case, str_eq, to_string};

verus! {

/// Whether a pad is plated through the board or surface-mounted.
#[derive(Debug, Clone, Copy, PartialEq, Eq, Structural)]
pub enum PadKind {
    Smd,
    Tht,
}

/// Pad outline; ratios in thousandths of the smaller pad side.
#[derive(Debug, Clone, Copy, PartialEq, Eq, Structural)]
pub enum PadShape {
    Round,
    Rect,
    RoundRect { radius_ratio_milli: u32 },
    /// Chamfered on all four corners.
    Chamfered { chamfer_ratio_milli: u32 },
}

/// A footprint pad; lengths in nanometres, rotation in thousandths of a
/// degree.
#[derive(Debug)]
pub struct Pad {
    pub number: String,
    pub kind: PadKind,
    pub shape: PadShape,
    pub size: (i64, i64),
    pub position: Point,
    pub rotation: i64,
    pub layers: Vec<String>,
    /// Drill diameter of a through-hole pad.
    pub drill: Option<i64>,
    pub plated: bool,
}

/// What a pad holds.
#[verifier::ext_equal]
pub struct PadView {
    pub number: Seq<char>,
    pub kind: PadKind,
    pub shape: PadShape,
    pub size: (i64, i64),
    pub position: Point,
    pub rotation: i64,
    pub layers: Seq<Seq<char>>,
    pub drill: Option<i64>,
    pub plated: bool,
}

impl View for Pad {
    type V = PadView;

    open spec fn view(&self) -> PadView {
        PadView {
            number: self.number@,
            kind: self.kind,
            shape: self.shape,
            size: self.size,
            position: self.position,
            rotation: self.rotation,
            layers: self.layers@.map_values(|l: String| l@),
            drill: self.drill,
            plated: self.plated,
        }
    }
}

/// A silkscreen line; width in nanometres.
#[derive(Debug, Clone, Copy, PartialEq, Eq, Structural)]
pub struct SilkLine {
    pub from: Point,
    pub to: Point,
    pub stroke_width: i64,
    pub filled: bool,
}

/// A library footprint.
#[derive(Debug)]
pub struct Footprint {
    pub uuid: u128,
    pub name: String,
    pub description: String,
    pub pads: Vec<Pad>,
    pub silk_f: Vec<SilkLine>,
}

/// What a footprint holds, apart from its identifier.
#[verifier::ext_equal]
pub struct FootprintView {
    pub name: Seq<char>,
    pub description: Seq<char>,
    pub pads: Seq<PadView>,
    pub silk_f: Seq<SilkLine>,
}

impl View for Footprint {
    type V = FootprintView;

    open spec fn view(&self) -> FootprintView {
        FootprintView {
            name: self.name@,
            description: self.description@,
            pads: self.pads@.map_values(|p: Pad| p@),
            silk_f: self.silk_f@,
        }
    }
}

/// The record kind text: `RECORD`, else `OBJECTTYPE`, else empty.
pub open spec fn kind_text(m: Map<Seq<char>, Seq<char>>) -> Seq<char> {
    if m.contains_key("RECORD"@) {
        m["RECORD"@]
    } else {
        text_or(m, "OBJECTTYPE"@, Seq::empty())
    }
}

/// Whether the record kind is `name` (up to ASCII case) or the number
/// `code`.
pub open spec fn kind_is(m: Map<Seq<char>, Seq<char>>, name: Seq<char>, code: Seq<char>) -> bool {
    spec_eq_ignore_ascii_case(kind_text(m), name) || kind_text(m) == code
}

/// A coordinate read from `k1`, else `k2`, else `default`.
pub open spec fn coord2(m: Map<Seq<char>, Seq<char>>, k1: Seq<char>, k2: Seq<char>, default: i64) -> i64 {
    spec_coord_or(m, k1, spec_coord_or(m, k2, default))
}

/// A footprint started by a component record.
pub open spec fn component_footprint(m: Map<Seq<char>, Seq<char>>) -> FootprintView {
    FootprintView {
        name: if m.contains_key("PATTERN"@) {
            m["PATTERN"@]
        } else {
            text_or(m, "NAME"@, "ALT_FP"@)
        },
        description: text_or(m, "DESCRIPTION"@, Seq::empty()),
        pads: Seq::empty(),
        silk_f: Seq::empty(),
    }
}

/// The pad shape named by `TOPSHAPE`, else `SHAPE`, else round.
pub open spec fn shape_of(m: Map<Seq<char>, Seq<char>>) -> PadShape {
    let s = if m.contains_key("TOPSHAPE"@) {
        m["TOPSHAPE"@]
    } else {
        text_or(m, "SHAPE"@, "Round"@)
    };
    if s == "Rectangular"@ || s == "Rect"@ {
        PadShape::Rect
    } else if s == "RoundedRectangle"@ || s == "RoundRect"@ {
        PadShape::RoundRect { radius_ratio_milli: 250 }
    } else if s == "Octagonal"@ {
        PadShape::Chamfered { chamfer_ratio_milli: 250 }
    } else {
        PadShape::Round
    }
}

/// The copper, mask and paste layers of a pad.
pub open spec fn pad_layers(tht: bool) -> Seq<Seq<char>> {
    if tht {
        seq!["F.Cu"@, "B.Cu"@, "F.Mask"@, "B.Mask"@]
    } else {
        seq!["F.Cu"@, "F.Mask"@, "F.Paste"@]
    }
}

/// The pad of a pad record: through-hole when its hole size reads as a
/// positive number, the drill then being that size in nanometres (0 when
/// it has no value in the `i64` range, as for `inf`); sizes default to
/// 1.5 mm.
pub open spec fn record_pad(m: Map<Seq<char>, Seq<char>>) -> PadView {
    let hole = spec_coord_or(m, "HOLESIZE"@, 0);
    let tht = spec_get_positive(m, "HOLESIZE"@);
    PadView {
        number: if m.contains_key("NAME"@) {
            m["NAME"@]
        } else {
            text_or(m, "DESIGNATOR"@, "1"@)
        },
        kind: if tht {
            PadKind::Tht
        } else {
            PadKind::Smd
        },
        shape: shape_of(m),
        size: (
            coord2(m, "TOPXSIZE"@, "XSIZE"@, 1_500_000),
            coord2(m, "TOPYSIZE"@, "YSIZE"@, 1_500_000),
        ),
        position: Point { x: coord2(m, "X"@, "LOCATION.X"@, 0), y: coord2(m, "Y"@, "LOCATION.Y"@, 0) },
        rotation: spec_milli_or(m, "ROTATION"@, 0),
        layers: pad_layers(tht),
        drill: if tht {
            Some(hole)
        } else {
            None
        },
        plated: tht,
    }
}

/// The silkscreen line of a track record (width 0.15 mm by default).
pub open spec fn record_silk(m: Map<Seq<char>, Seq<char>>) -> SilkLine {
    SilkLine {
        from: Point { x: spec_coord_or(m, "X1"@, 0), y: spec_coord_or(m, "Y1"@, 0) },
        to: Point { x: spec_coord_or(m, "X2"@, 0), y: spec_coord_or(m, "Y2"@, 0) },
        stroke_width: spec_coord_or(m, "WIDTH"@, 150_000),
        filled: false,
    }
}

/// The footprint being read after one more (non-component) record.
pub open spec fn fp_update(cur: FootprintView, m: Map<Seq<char>, Seq<char>>) -> FootprintView {
    if kind_is(m, "Pad"@, "2"@) {
        FootprintView { pads: cur.pads.push(record_pad(m)), ..cur }
    } else if spec_eq_ignore_ascii_case(kind_text(m), "Track"@) {
        FootprintView { silk_f: cur.silk_f.push(record_silk(m)), ..cur }
    } else {
        cur
    }
}

/// Completed footprints and the footprint being read, after the records.
pub open spec fn fp_scan(recs: Seq<Map<Seq<char>, Seq<char>>>) -> (
    Seq<FootprintView>,
    Option<FootprintView>,
)
    decreases recs.len(),
{
    if recs.len() == 0 {
        (Seq::empty(), None)
    } else {
        let (done, cur) = fp_scan(recs.drop_last());
        let m = recs.last();
        if kind_is(m, "Component"@, "1"@) {
            match cur {
                Some(c) => (done.push(c), Some(component_footprint(m))),
                None => (done, Some(component_footprint(m))),
            }
        } else {
            match cur {
                Some(c) => (done, Some(fp_update(c, m))),
                None => (done, None),
            }
        }
    }
}

/// The footprints that a list of library records describes: a component
/// record starts a footprint, and the pad and track records after it
/// belong to it.
pub open spec fn spec_pcblib(recs: Seq<Map<Seq<char>, Seq<char>>>) -> Seq<FootprintView> {
    match fp_scan(recs).1 {
        Some(c) => fp_scan(recs).0.push(c),
        None => fp_scan(recs).0,
    }
}

fn kind_text_exec(rec: &AltiumRecord) -> (r: String)
    ensures
        r@ == kind_text(rec@),
{
    proof {
        reveal_strlit("");
    }
    assert(""@ =~= Seq::<char>::empty());
    match rec.get("RECORD") {
        Some(v) => to_string(v),
        None => crate::altium::schdoc::text_or_exec(rec, "OBJECTTYPE", ""),
    }
}

fn text2_exec(rec: &AltiumRecord, k1: &str, k2: &str, default: &str) -> (r: String)
    ensures
        r@ == (if rec@.contains_key(k1@) {
            rec@[k1@]
        } else {
            text_or(rec@, k2@, default@)
        }),
{
    match rec.get(k1) {
        Some(v) => to_string(v),
        None => crate::altium::schdoc::text_or_exec(rec, k2, default),
    }
}

fn coord2_exec(rec: &AltiumRecord, k1: &str, k2: &str, default: i64) -> (r: i64)
    ensures
        r == coord2(rec@, k1@, k2@, default),
{
    coord_or(rec, k1, coord_or(rec, k2, default))
}

fn component_exec(rec: &AltiumRecord) -> (r: Footprint)
    ensures
        r@ == component_footprint(rec@),
        is_uuid_v7(r.uuid),
{
    proof {
        reveal_strlit("");
    }
    assert(""@ =~= Seq::<char>::empty());
    let name = text2_exec(rec, "PATTERN", "NAME", "ALT_FP");
    let description = crate::altium::schdoc::text_or_exec(rec, "DESCRIPTION", "");
    let uuid = new_uuid_v7();
    let r = Footprint { uuid, name, description, pads: Vec::new(), silk_f: Vec::new() };
    assert(r@ =~= component_footprint(rec@));
    r
}

fn layers_exec(tht: bool) -> (r: Vec<String>)
    ensures
        r@.map_values(|l: String| l@) == pad_layers(tht),
{
    let mut v: Vec<String> = Vec::new();
    if tht {
        v.push(to_string("F.Cu"));
        v.push(to_string("B.Cu"));
        v.push(to_string("F.Mask"));
        v.push(to_string("B.Mask"));
    } else {
        v.push(to_string("F.Cu"));
        v.push(to_string("F.Mask"));
        v.push(to_string("F.Paste"));
    }
    assert(v@.map_values(|l: String| l@) =~= pad_layers(tht));
    v
}

fn pad_exec(rec: &AltiumRecord) -> (r: Pad)
    ensures
        r@ == record_pad(rec@),
{
    let number = text2_exec(rec, "NAME", "DESIGNATOR", "1");
    let x = coord2_exec(rec, "X", "LOCATION.X", 0);
    let y = coord2_exec(rec, "Y", "LOCATION.Y", 0);
    let xs = coord2_exec(rec, "TOPXSIZE", "XSIZE", 1_500_000);
    let ys = coord2_exec(rec, "TOPYSIZE", "YSIZE", 1_500_000);
    let rotation = milli_or(rec, "ROTATION", 0);
    let hole = coord_or(rec, "HOLESIZE", 0);
    let tht = rec.get_positive("HOLESIZE");
    let shape_text = text2_exec(rec, "TOPSHAPE", "SHAPE", "Round");
    let st = shape_text.as_str();
    let shape = if str_eq(st, "Rectangular") || str_eq(st, "Rect") {
        PadShape::Rect
    } else if str_eq(st, "RoundedRectangle") || str_eq(st, "RoundRect") {
        PadShape::RoundRect { radius_ratio_milli: 250 }
    } else if str_eq(st, "Octagonal") {
        PadShape::Chamfered { chamfer_ratio_milli: 250 }
    } else {
        PadShape::Round
    };
    let layers = layers_exec(tht);
    let r = Pad {
        number,
        kind: if tht {
            PadKind::Tht
        } else {
            PadKind::Smd
        },
        shape,
        size: (xs, ys),
        position: Point { x, y },
        rotation,
        layers,
        drill: if tht {
            Some(hole)
        } else {
            None
        },
        plated: tht,
    };
    assert(r@ =~= record_pad(rec@));
    r
}

fn silk_exec(rec: &AltiumRecord) -> (r: SilkLine)
    ensures
        r == record_silk(rec@),
{
    SilkLine {
        from: Point { x: coord_or(rec, "X1", 0), y: coord_or(rec, "Y1", 0) },
        to: Point { x: coord_or(rec, "X2", 0), y: coord_or(rec, "Y2", 0) },
        stroke_width: coord_or(rec, "WIDTH", 150_000),
        filled: false,
    }
}

/// The views of a list of footprints.
pub open spec fn fp_views(v: Seq<Footprint>) -> Seq<FootprintView> {
    v.map_values(|f: Footprint| f@)
}

/// Converts parsed footprint library records into footprints (see
/// [`spec_pcblib`]); every footprint gets a fresh identifier. Never fails.
pub fn parse_footprints_from_records(records: &[AltiumRecord]) -> (r: Result<
    Vec<Footprint>,
    AltiumImportError,
>)
    ensures
        r matches Ok(v) && fp_views(v@) == spec_pcblib(record_views(records@)) && forall|k: int|
            0 <= k < v@.len() ==> is_uuid_v7(#[trigger] v@[k].uuid),
{
    let ghost recs = record_views(records@);
    let mut footprints: Vec<Footprint> = Vec::new();
    let mut current: Option<Footprint> = None;
    let mut i: usize = 0;
    while i < records.len()
        invariant
            i <= records.len(),
            recs == record_views(records@),
            fp_views(footprints@) == fp_scan(recs.take(i as int)).0,
            match current {
                Some(c) => fp_scan(recs.take(i as int)).1 == Some(c@),
                None => fp_scan(recs.take(i as int)).1 is None,
            },
            forall|k: int| 0 <= k < footprints@.len() ==> is_uuid_v7(#[trigger] footprints@[k].uuid),
            current matches Some(c) ==> is_uuid_v7(c.uuid),
        decreases records.len() - i,
    {
        let rec = &records[i];
        let ghost m = rec@;
        assert(recs.take(i + 1).drop_last() =~= recs.take(i as int));
        assert(recs.take(i + 1).last() == m);
        let kind = kind_text_exec(rec);
        let ks = kind.as_str();
        if eq_ignore_ascii_case(ks, "Component") || str_eq(ks, "1") {
            let next = component_exec(rec);
            match current.take() {
                Some(prev) => {
                    let ghost f0 = footprints@;
                    footprints.push(prev);
                    assert(fp_views(footprints@) =~= fp_views(f0).push(footprints@.last()@));
                },
                None => {},
            }
            current = Some(next);
        } else {
            match current.take() {
                Some(c) => {
                    let mut c = c;
                    let ghost c0 = c@;
                    if eq_ignore_ascii_case(ks, "Pad") || str_eq(ks, "2") {
                        let pad = pad_exec(rec);
                        c.pads.push(pad);
                        assert(c@ =~= fp_update(c0, m));
                    } else if eq_ignore_ascii_case(ks, "Track") {
                        let silk = silk_exec(rec);
                        c.silk_f.push(silk);
                        assert(c@ =~= fp_update(c0, m));
                    }
                    current = Some(c);
                },
                None => {},
            }
        }
        i += 1;
    }
    assert(recs.take(records.len() as int) =~= recs);
    match current {
        Some(last) => {
            let ghost f0 = footprints@;
            footprints.push(last);
            assert(fp_views(footprints@) =~= fp_views(f0).push(footprints@.last()@));
        },
        None => {},
    }
    Ok(footprints)
}

/// A pad's width is the record's `TOPXSIZE` in nanometres (else `XSIZE`,
/// else 1.5 mm) and its height its `TOPYSIZE` (else `YSIZE`, else 1.5 mm).
pub proof fn law_pad_size(m: Map<Seq<char>, Seq<char>>)
    ensures
        record_pad(m).size.0 == (match crate::altium::record::spec_get_fixed(m, "TOPXSIZE"@, 25400) {
            Some(v) => v,
            None => match crate::altium::record::spec_get_fixed(m, "XSIZE"@, 25400) {
                Some(v) => v,
                None => 1_500_000i64,
            },
        }),
        record_pad(m).size.1 == (match crate::altium::record::spec_get_fixed(m, "TOPYSIZE"@, 25400) {
            Some(v) => v,
            None => match crate::altium::record::spec_get_fixed(m, "YSIZE"@, 25400) {
                Some(v) => v,
                None => 1_500_000i64,
            },
        }),
{
}

/// A pad record read into an open footprint appends that pad, last.
pub proof fn law_pad_appended(cur: FootprintView, m: Map<Seq<char>, Seq<char>>)
    requires
        kind_is(m, "Pad"@, "2"@),
    ensures
        fp_update(cur, m).pads.len() == cur.pads.len() + 1,
        fp_update(cur, m).pads.drop_last() == cur.pads,
        fp_update(cur, m).pads.last() == record_pad(m),
{
    assert(fp_update(cur, m).pads.drop_last() =~= cur.pads);
}

/// A pad record: number from `NAME` (else `DESIGNATOR`, else `1`);
/// position from `X` (else `LOCATION.X`, else 0) and `Y` (else
/// `LOCATION.Y`); rotation from `ROTATION` in thousandths of a degree;
/// through-hole, plated, on both copper and mask layers and drilled to the
/// hole size exactly when `HOLESIZE` reads as a positive number, else
/// surface-mount on the front copper, mask and paste with no drill.
pub proof fn law_pad_fields(m: Map<Seq<char>, Seq<char>>)
    ensures
        record_pad(m).number == (if m.contains_key("NAME"@) {
            m["NAME"@]
        } else if m.contains_key("DESIGNATOR"@) {
            m["DESIGNATOR"@]
        } else {
            "1"@
        }),
        record_pad(m).position.x == spec_coord_or(m, "X"@, spec_coord_or(m, "LOCATION.X"@, 0)),
        record_pad(m).position.y == spec_coord_or(m, "Y"@, spec_coord_or(m, "LOCATION.Y"@, 0)),
        record_pad(m).rotation == spec_milli_or(m, "ROTATION"@, 0),
        spec_get_positive(m, "HOLESIZE"@) ==> record_pad(m).kind == PadKind::Tht
            && record_pad(m).plated && record_pad(m).drill == Some(spec_coord_or(m, "HOLESIZE"@, 0))
            && record_pad(m).layers == seq!["F.Cu"@, "B.Cu"@, "F.Mask"@, "B.Mask"@],
        !spec_get_positive(m, "HOLESIZE"@) ==> record_pad(m).kind == PadKind::Smd
            && !record_pad(m).plated && record_pad(m).drill is None && record_pad(m).layers
            == seq!["F.Cu"@, "F.Mask"@, "F.Paste"@],
{
}

/// A pad's shape from `TOPSHAPE` (else `SHAPE`, else round):
/// `Rectangular`/`Rect` rectangular, `RoundedRectangle`/`RoundRect`
/// rounded with a quarter corner ratio, `Octagonal` chamfered by a
/// quarter, anything else round.
pub proof fn law_pad_shape(m: Map<Seq<char>, Seq<char>>)
    ensures
        ({
            let s = if m.contains_key("TOPSHAPE"@) {
                m["TOPSHAPE"@]
            } else if m.contains_key("SHAPE"@) {
                m["SHAPE"@]
            } else {
                "Round"@
            };
            &&& (s == "Rectangular"@ || s == "Rect"@) ==> record_pad(m).shape == PadShape::Rect
            &&& (s == "RoundedRectangle"@ || s == "RoundRect"@) ==> record_pad(m).shape
                == (PadShape::RoundRect { radius_ratio_milli: 250 })
            &&& s == "Octagonal"@ ==> record_pad(m).shape == (PadShape::Chamfered {
                chamfer_ratio_milli: 250,
            })
            &&& (s != "Rectangular"@ && s != "Rect"@ && s != "RoundedRectangle"@ && s
                != "RoundRect"@ && s != "Octagonal"@) ==> record_pad(m).shape == PadShape::Round
        }),
{
    reveal_strlit("Rectangular");
    reveal_strlit("Rect");
    reveal_strlit("RoundedRectangle");
    reveal_strlit("RoundRect");
    reveal_strlit("Octagonal");
    reveal_strlit("Round");
    let s = if m.contains_key("TOPSHAPE"@) {
        m["TOPSHAPE"@]
    } else if m.contains_key("SHAPE"@) {
        m["SHAPE"@]
    } else {
        "Round"@
    };
    assert(s == (if m.contains_key("TOPSHAPE"@) {
        m["TOPSHAPE"@]
    } else {
        text_or(m, "SHAPE"@, "Round"@)
    }));
    assert((s == "Rectangular"@ || s == "Rect"@) ==> shape_of(m) == PadShape::Rect);
    assert((s == "RoundedRectangle"@ || s == "RoundRect"@) ==> shape_of(m) == (PadShape::RoundRect { radius_ratio_milli: 250 }));
    assert("Octagonal"@[0] != "RoundRect"@[0]);
    assert("Octagonal"@ != "RoundRect"@);
    assert(s == "Octagonal"@ ==> shape_of(m) == (PadShape::Chamfered { chamfer_ratio_milli: 250 }));
}

/// A track record in a footprint draws a silkscreen line from `X1/Y1` to
/// `X2/Y2` (0 when absent), `WIDTH` wide (0.15 mm), unfilled.
pub proof fn law_silk_fields(m: Map<Seq<char>, Seq<char>>)
    ensures
        record_silk(m).from.x == spec_coord_or(m, "X1"@, 0),
        record_silk(m).from.y == spec_coord_or(m, "Y1"@, 0),
        record_silk(m).to.x == spec_coord_or(m, "X2"@, 0),
        record_silk(m).to.y == spec_coord_or(m, "Y2"@, 0),
        record_silk(m).stroke_width == spec_coord_or(m, "WIDTH"@, 150_000),
        !record_silk(m).filled,
{
}

/// A component record starts a footprint named by `PATTERN` (else `NAME`,
/// else `ALT_FP`), described by `DESCRIPTION` (empty), with no pads or
/// lines yet.
pub proof fn law_component_footprint_fields(m: Map<Seq<char>, Seq<char>>)
    ensures
        component_footprint(m).name == (if m.contains_key("PATTERN"@) {
            m["PATTERN"@]
        } else if m.contains_key("NAME"@) {
            m["NAME"@]
        } else {
            "ALT_FP"@
        }),
        component_footprint(m).description == (if m.contains_key("DESCRIPTION"@) {
            m["DESCRIPTION"@]
        } else {
            Seq::<char>::empty()
        }),
        component_footprint(m).pads.len() == 0,
        component_footprint(m).silk_f.len() == 0,
{
}

/// The number of component records (`Component`, any case, or `1`).
pub open spec fn component_record_count(recs: Seq<Map<Seq<char>, Seq<char>>>) -> nat
    decreases recs.len(),
{
    if recs.len() == 0 {
        0
    } else {
        component_record_count(recs.drop_last()) + if kind_is(recs.last(), "Component"@, "1"@) {
            1nat
        } else {
            0nat
        }
    }
}

/// A library yields exactly one footprint per component record; the
/// last one read is still open until the records end.
pub proof fn law_one_footprint_per_component(recs: Seq<Map<Seq<char>, Seq<char>>>)
    ensures
        spec_pcblib(recs).len() == component_record_count(recs),
        fp_scan(recs).1 is Some <==> component_record_count(recs) > 0,
    decreases recs.len(),
{
    if recs.len() > 0 {
        law_one_footprint_per_component(recs.drop_last());
    }
}

/// A footprint is named after the component record that starts it: the
/// last footprint of a library whose last record is a component record
/// is that record's footprint, with no pads yet.
pub proof fn law_component_starts_footprint(recs: Seq<Map<Seq<char>, Seq<char>>>, m: Map<Seq<char>, Seq<char>>)
    requires
        kind_is(m, "Component"@, "1"@),
    ensures
        spec_pcblib(recs.push(m)).last() == component_footprint(m),
        spec_pcblib(recs.push(m)).drop_last() == spec_pcblib(recs),
{
    assert(recs.push(m).drop_last() =~= recs);
    assert(spec_pcblib(recs.push(m)).drop_last() =~= spec_pcblib(recs));
}

} // verus!
