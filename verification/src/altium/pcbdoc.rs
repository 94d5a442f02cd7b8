//! Conversion of Altium PCB document (`.PcbDoc`) records into a board.

use vstd::prelude::*;
use crate::altium::common::{coord_or, milli_or, spec_coord_or, spec_milli_or, Point};
use crate::altium::pcblib::{coord2, kind_text};
use crate::altium::record::{spec_get_fixed, spec_get_i64, AltiumRecord, NM_PER_MIL};
use crate::altium::schdoc::{text_or, text_or_exec};
use crate::altium::stream::record_views;
use crate::ids::{is_uuid_v7, new_uuid_v7};
use crate::text::{eq_ignore_ascii_case, spec_eq_ignore_ascii_case, str_eq, to_string};

verus! {

/// A board layer definition.
#[derive(Debug)]
pub struct LayerDef {
    pub id: u32,
    pub name: String,
    pub layer_type: String,
}

impl View for LayerDef {
    type V = (u32, Seq<char>, Seq<char>);

    open spec fn view(&self) -> (u32, Seq<char>, Seq<char>) {
        (self.id, self.name@, self.layer_type@)
    }
}

/// A net: its number and name.
#[derive(Debug)]
pub struct NetDef {
    pub number: u32,
    pub name: String,
}

impl View for NetDef {
    type V = (u32, Seq<char>);

    open spec fn view(&self) -> (u32, Seq<char>) {
        (self.number, self.name@)
    }
}

/// A placed board footprint.
#[derive(Debug)]
pub struct BoardFootprint {
    pub uuid: u128,
    pub reference: String,
    pub value: String,
    pub footprint_id: String,
    pub position: Point,
    /// Rotation in thousandths of a degree.
    pub rotation: i64,
    pub layer: String,
    pub locked: bool,
}

/// What a placed footprint holds, apart from its identifier.
#[verifier::ext_equal]
pub struct BoardFootprintView {
    pub reference: Seq<char>,
    pub value: Seq<char>,
    pub footprint_id: Seq<char>,
    pub position: Point,
    pub rotation: i64,
    pub layer: Seq<char>,
    pub locked: bool,
}

impl View for BoardFootprint {
    type V = BoardFootprintView;

    open spec fn view(&self) -> BoardFootprintView {
        BoardFootprintView {
            reference: self.reference@,
            value: self.value@,
            footprint_id: self.footprint_id@,
            position: self.position,
            rotation: self.rotation,
            layer: self.layer@,
            locked: self.locked,
        }
    }
}

/// A routed track segment; width in nanometres.
#[derive(Debug)]
pub struct Segment {
    pub uuid: u128,
    pub start: Point,
    pub end: Point,
    pub width: i64,
    pub layer: String,
    pub net: u32,
}

/// What a segment holds, apart from its identifier.
#[verifier::ext_equal]
pub struct SegmentView {
    pub start: Point,
    pub end: Point,
    pub width: i64,
    pub layer: Seq<char>,
    pub net: u32,
}

impl View for Segment {
    type V = SegmentView;

    open spec fn view(&self) -> SegmentView {
        SegmentView {
            start: self.start,
            end: self.end,
            width: self.width,
            layer: self.layer@,
            net: self.net,
        }
    }
}

/// A through via; sizes in nanometres.
#[derive(Debug)]
pub struct Via {
    pub uuid: u128,
    pub position: Point,
    pub diameter: i64,
    pub drill: i64,
    pub layers: Vec<String>,
    pub net: u32,
}

/// What a via holds, apart from its identifier.
#[verifier::ext_equal]
pub struct ViaView {
    pub position: Point,
    pub diameter: i64,
    pub drill: i64,
    pub layers: Seq<Seq<char>>,
    pub net: u32,
}

impl View for Via {
    type V = ViaView;

    open spec fn view(&self) -> ViaView {
        ViaView {
            position: self.position,
            diameter: self.diameter,
            drill: self.drill,
            layers: self.layers@.map_values(|l: String| l@),
            net: self.net,
        }
    }
}

/// A printed circuit board.
#[derive(Debug)]
pub struct PcbBoard {
    pub uuid: u128,
    pub version: u32,
    pub generator: String,
    /// Board thickness in nanometres.
    pub thickness: i64,
    pub layers: Vec<LayerDef>,
    pub nets: Vec<NetDef>,
    pub footprints: Vec<BoardFootprint>,
    pub segments: Vec<Segment>,
    pub vias: Vec<Via>,
}

/// Whether every placed footprint, segment and via of a board has a
/// version-7 UUID.
pub open spec fn items_uuid_v7(b: PcbBoard) -> bool {
    &&& forall|k: int| 0 <= k < b.footprints@.len() ==> is_uuid_v7(#[trigger] b.footprints@[k].uuid)
    &&& forall|k: int| 0 <= k < b.segments@.len() ==> is_uuid_v7(#[trigger] b.segments@[k].uuid)
    &&& forall|k: int| 0 <= k < b.vias@.len() ==> is_uuid_v7(#[trigger] b.vias@[k].uuid)
}

/// What a board holds, apart from its identifier.
#[verifier::ext_equal]
pub struct BoardView {
    pub version: u32,
    pub generator: Seq<char>,
    pub thickness: i64,
    pub layers: Seq<(u32, Seq<char>, Seq<char>)>,
    pub nets: Seq<(u32, Seq<char>)>,
    pub footprints: Seq<BoardFootprintView>,
    pub segments: Seq<SegmentView>,
    pub vias: Seq<ViaView>,
}

impl View for PcbBoard {
    type V = BoardView;

    open spec fn view(&self) -> BoardView {
        BoardView {
            version: self.version,
            generator: self.generator@,
            thickness: self.thickness,
            layers: self.layers@.map_values(|l: LayerDef| l@),
            nets: self.nets@.map_values(|n: NetDef| n@),
            footprints: self.footprints@.map_values(|f: BoardFootprint| f@),
            segments: self.segments@.map_values(|s: Segment| s@),
            vias: self.vias@.map_values(|v: Via| v@),
        }
    }
}

/// An integer property, or `default`.
pub open spec fn int_or(m: Map<Seq<char>, Seq<char>>, key: Seq<char>, default: i64) -> i64 {
    match spec_get_i64(m, key) {
        Some(v) => v,
        None => default,
    }
}

/// The net number of a record (`NET`, else 0), truncated to 32 bits.
pub open spec fn net_of(m: Map<Seq<char>, Seq<char>>) -> u32 {
    int_or(m, "NET"@, 0) as u32
}

/// The two copper layers a through via spans.
pub open spec fn via_layers() -> Seq<Seq<char>> {
    seq!["Top Layer"@, "Bottom Layer"@]
}

// -------------------------------------------------------------------
// Board metadata: nets.
// -------------------------------------------------------------------

/// Whether a net of that name is already listed.
pub open spec fn has_net(nets: Seq<(u32, Seq<char>)>, name: Seq<char>) -> bool {
    exists|k: int| 0 <= k < nets.len() && nets[k].1 == name
}

/// The nets after one board record: a record with `NETNAME` (else `NAME`)
/// adds that net, numbered by `NETID`, else `ID`, else the count of nets
/// so far (truncated to 32 bits), unless a net of that name exists.
pub open spec fn net_step(nets: Seq<(u32, Seq<char>)>, m: Map<Seq<char>, Seq<char>>) -> Seq<
    (u32, Seq<char>),
> {
    let name = if m.contains_key("NETNAME"@) {
        Some(m["NETNAME"@])
    } else if m.contains_key("NAME"@) {
        Some(m["NAME"@])
    } else {
        None
    };
    match name {
        Some(n) => {
            let id = match spec_get_i64(m, "NETID"@) {
                Some(v) => v,
                None => int_or(m, "ID"@, nets.len() as i64),
            };
            if has_net(nets, n) {
                nets
            } else {
                nets.push((id as u32, n))
            }
        },
        None => nets,
    }
}

/// The nets after a list of board records.
pub open spec fn nets_after(nets: Seq<(u32, Seq<char>)>, recs: Seq<Map<Seq<char>, Seq<char>>>) -> Seq<
    (u32, Seq<char>),
>
    decreases recs.len(),
{
    if recs.len() == 0 {
        nets
    } else {
        net_step(nets_after(nets, recs.drop_last()), recs.last())
    }
}

fn has_net_exec(nets: &Vec<NetDef>, name: &str) -> (r: bool)
    ensures
        r == has_net(nets@.map_values(|n: NetDef| n@), name@),
{
    let ghost v = nets@.map_values(|n: NetDef| n@);
    let mut k: usize = 0;
    while k < nets.len()
        invariant
            k <= nets.len(),
            v == nets@.map_values(|n: NetDef| n@),
            forall|j: int| 0 <= j < k ==> v[j].1 != name@,
        decreases nets.len() - k,
    {
        if str_eq(nets[k].name.as_str(), name) {
            assert(v[k as int].1 == name@);
            return true;
        }
        k += 1;
    }
    false
}

/// Adds the nets that board records name (see [`net_step`]).
pub fn parse_board_metadata(records: &[AltiumRecord], board: &mut PcbBoard)
    ensures
        final(board)@ == (BoardView {
            nets: nets_after(old(board)@.nets, record_views(records@)),
            ..old(board)@
        }),
        final(board).uuid == old(board).uuid,
        items_uuid_v7(*old(board)) ==> items_uuid_v7(*final(board)),
{
    let ghost recs = record_views(records@);
    let ghost b0 = board@;
    let mut i: usize = 0;
    while i < records.len()
        invariant
            i <= records.len(),
            recs == record_views(records@),
            board@ == (BoardView { nets: nets_after(b0.nets, recs.take(i as int)), ..b0 }),
            board.uuid == old(board).uuid,
            items_uuid_v7(*old(board)) ==> items_uuid_v7(*board),
        decreases records.len() - i,
    {
        let rec = &records[i];
        assert(recs.take(i + 1).drop_last() =~= recs.take(i as int));
        assert(recs.take(i + 1).last() == rec@);
        let ghost n0 = board@.nets;
        let name = match rec.get("NETNAME") {
            Some(v) => Some(v),
            None => rec.get("NAME"),
        };
        match name {
            Some(n) => {
                let count = board.nets.len();
                let id = match rec.get_i64("NETID") {
                    Some(v) => v,
                    None => match rec.get_i64("ID") {
                        Some(v) => v,
                        None => count as i64,
                    },
                };
                if !has_net_exec(&board.nets, n) {
                    board.nets.push(NetDef { number: id as u32, name: to_string(n) });
                    assert(board@.nets =~= n0.push((id as u32, n@)));
                }
                assert(board@.nets == net_step(n0, rec@));
            },
            None => {},
        }
        i += 1;
    }
    assert(recs.take(records.len() as int) =~= recs);
}

// -------------------------------------------------------------------
// Track, via and component streams.
// -------------------------------------------------------------------

/// The segment of a track-stream record: ends from `X1/Y1` (else
/// `LOCATION`) and `X2/Y2` (else `CORNER`, else the start); width 0.25 mm
/// and layer `Top Layer` by default.
pub open spec fn track_segment(m: Map<Seq<char>, Seq<char>>) -> SegmentView {
    let x1 = coord2(m, "X1"@, "LOCATION.X"@, 0);
    let y1 = coord2(m, "Y1"@, "LOCATION.Y"@, 0);
    SegmentView {
        start: Point { x: x1, y: y1 },
        end: Point { x: coord2(m, "X2"@, "CORNER.X"@, x1), y: coord2(m, "Y2"@, "CORNER.Y"@, y1) },
        width: spec_coord_or(m, "WIDTH"@, 250_000),
        layer: text_or(m, "LAYER"@, "Top Layer"@),
        net: net_of(m),
    }
}

/// The via at `(x, y)` of a record: diameter 0.6 mm and drill 0.3 mm by
/// default.
pub open spec fn record_via(m: Map<Seq<char>, Seq<char>>, x: i64, y: i64) -> ViaView {
    ViaView {
        position: Point { x, y },
        diameter: spec_coord_or(m, "DIAMETER"@, 600_000),
        drill: spec_coord_or(m, "HOLESIZE"@, 300_000),
        layers: via_layers(),
        net: net_of(m),
    }
}

/// The via of a via-stream record, placed at `LOCATION` (else `X/Y`).
pub open spec fn stream_via(m: Map<Seq<char>, Seq<char>>) -> ViaView {
    record_via(m, coord2(m, "LOCATION.X"@, "X"@, 0), coord2(m, "LOCATION.Y"@, "Y"@, 0))
}

/// The footprint of a component-stream record, if it has a designator.
pub open spec fn stream_component(m: Map<Seq<char>, Seq<char>>) -> Option<BoardFootprintView> {
    let designator = if m.contains_key("SOURCECOMPONENTNAME"@) {
        m["SOURCECOMPONENTNAME"@]
    } else {
        text_or(m, "NAME"@, Seq::empty())
    };
    if designator.len() == 0 {
        None
    } else {
        Some(
            BoardFootprintView {
                reference: designator,
                value: text_or(m, "COMMENT"@, Seq::empty()),
                footprint_id: text_or(m, "PATTERN"@, Seq::empty()),
                position: Point {
                    x: coord2(m, "LOCATION.X"@, "X"@, 0),
                    y: coord2(m, "LOCATION.Y"@, "Y"@, 0),
                },
                rotation: spec_milli_or(m, "ROTATION"@, 0),
                layer: text_or(m, "LAYER"@, "Top Layer"@),
                locked: false,
            },
        )
    }
}

/// The footprints that component-stream records place.
pub open spec fn components_of(recs: Seq<Map<Seq<char>, Seq<char>>>) -> Seq<BoardFootprintView>
    decreases recs.len(),
{
    if recs.len() == 0 {
        Seq::empty()
    } else {
        match stream_component(recs.last()) {
            Some(f) => components_of(recs.drop_last()).push(f),
            None => components_of(recs.drop_last()),
        }
    }
}

fn layer_exec(rec: &AltiumRecord) -> (r: String)
    ensures
        r@ == text_or(rec@, "LAYER"@, "Top Layer"@),
{
    text_or_exec(rec, "LAYER", "Top Layer")
}

fn net_exec(rec: &AltiumRecord) -> (r: u32)
    ensures
        r == net_of(rec@),
{
    match rec.get_i64("NET") {
        Some(v) => v as u32,
        None => 0i64 as u32,
    }
}

fn via_layers_exec() -> (r: Vec<String>)
    ensures
        r@.map_values(|l: String| l@) == via_layers(),
{
    let mut v: Vec<String> = Vec::new();
    v.push(to_string("Top Layer"));
    v.push(to_string("Bottom Layer"));
    assert(v@.map_values(|l: String| l@) =~= via_layers());
    v
}

fn via_at(rec: &AltiumRecord, x: i64, y: i64) -> (r: Via)
    ensures
        r@ == record_via(rec@, x, y),
        is_uuid_v7(r.uuid),
{
    let uuid = new_uuid_v7();
    let r = Via {
        uuid,
        position: Point { x, y },
        diameter: coord_or(rec, "DIAMETER", 600_000),
        drill: coord_or(rec, "HOLESIZE", 300_000),
        layers: via_layers_exec(),
        net: net_exec(rec),
    };
    assert(r@ =~= record_via(rec@, x, y));
    r
}

/// Appends a segment for every track-stream record (see
/// [`track_segment`]).
pub fn parse_tracks(records: &[AltiumRecord], board: &mut PcbBoard)
    ensures
        final(board)@ == (BoardView {
            segments: old(board)@.segments + record_views(records@).map_values(
                |m: Map<Seq<char>, Seq<char>>| track_segment(m),
            ),
            ..old(board)@
        }),
        final(board).uuid == old(board).uuid,
        items_uuid_v7(*old(board)) ==> items_uuid_v7(*final(board)),
{
    let ghost recs = record_views(records@);
    let ghost b0 = board@;
    let mut i: usize = 0;
    while i < records.len()
        invariant
            i <= records.len(),
            recs == record_views(records@),
            board@ == (BoardView {
                segments: b0.segments + recs.take(i as int).map_values(
                    |m: Map<Seq<char>, Seq<char>>| track_segment(m),
                ),
                ..b0
            }),
            board.uuid == old(board).uuid,
            items_uuid_v7(*old(board)) ==> items_uuid_v7(*board),
        decreases records.len() - i,
    {
        let rec = &records[i];
        let x1 = coord2_exec(rec, "X1", "LOCATION.X", 0);
        let y1 = coord2_exec(rec, "Y1", "LOCATION.Y", 0);
        let x2 = coord2_exec(rec, "X2", "CORNER.X", x1);
        let y2 = coord2_exec(rec, "Y2", "CORNER.Y", y1);
        let uuid = new_uuid_v7();
        let seg = Segment {
            uuid,
            start: Point { x: x1, y: y1 },
            end: Point { x: x2, y: y2 },
            width: coord_or(rec, "WIDTH", 250_000),
            layer: layer_exec(rec),
            net: net_exec(rec),
        };
        assert(seg@ =~= track_segment(rec@));
        let ghost s0 = board@.segments;
        let ghost sv = seg@;
        board.segments.push(seg);
        assert(board@.segments =~= s0.push(sv));
        assert(recs.take(i + 1) =~= recs.take(i as int).push(rec@));
        assert(recs.take(i + 1).map_values(|m: Map<Seq<char>, Seq<char>>| track_segment(m))
            =~= recs.take(i as int).map_values(|m: Map<Seq<char>, Seq<char>>| track_segment(m)).push(
            track_segment(rec@),
        ));
        assert(board@.segments =~= b0.segments + recs.take(i + 1).map_values(
            |m: Map<Seq<char>, Seq<char>>| track_segment(m),
        ));
        i += 1;
    }
    assert(recs.take(records.len() as int) =~= recs);
}

fn coord2_exec(rec: &AltiumRecord, k1: &str, k2: &str, default: i64) -> (r: i64)
    ensures
        r == coord2(rec@, k1@, k2@, default),
{
    coord_or(rec, k1, coord_or(rec, k2, default))
}

/// Appends a via for every via-stream record (see [`stream_via`]).
pub fn parse_vias(records: &[AltiumRecord], board: &mut PcbBoard)
    ensures
        final(board)@ == (BoardView {
            vias: old(board)@.vias + record_views(records@).map_values(
                |m: Map<Seq<char>, Seq<char>>| stream_via(m),
            ),
            ..old(board)@
        }),
        final(board).uuid == old(board).uuid,
        items_uuid_v7(*old(board)) ==> items_uuid_v7(*final(board)),
{
    let ghost recs = record_views(records@);
    let ghost b0 = board@;
    let mut i: usize = 0;
    while i < records.len()
        invariant
            i <= records.len(),
            recs == record_views(records@),
            board@ == (BoardView {
                vias: b0.vias + recs.take(i as int).map_values(
                    |m: Map<Seq<char>, Seq<char>>| stream_via(m),
                ),
                ..b0
            }),
            board.uuid == old(board).uuid,
            items_uuid_v7(*old(board)) ==> items_uuid_v7(*board),
        decreases records.len() - i,
    {
        let rec = &records[i];
        let x = coord2_exec(rec, "LOCATION.X", "X", 0);
        let y = coord2_exec(rec, "LOCATION.Y", "Y", 0);
        let via = via_at(rec, x, y);
        let ghost v0 = board@.vias;
        let ghost vv = via@;
        board.vias.push(via);
        assert(board@.vias =~= v0.push(vv));
        assert(recs.take(i + 1) =~= recs.take(i as int).push(rec@));
        assert(recs.take(i + 1).map_values(|m: Map<Seq<char>, Seq<char>>| stream_via(m))
            =~= recs.take(i as int).map_values(|m: Map<Seq<char>, Seq<char>>| stream_via(m)).push(
            stream_via(rec@),
        ));
        assert(board@.vias =~= b0.vias + recs.take(i + 1).map_values(
            |m: Map<Seq<char>, Seq<char>>| stream_via(m),
        ));
        i += 1;
    }
    assert(recs.take(records.len() as int) =~= recs);
}

/// Places a footprint for every component-stream record that has a
/// designator (see [`stream_component`]).
pub fn parse_components(records: &[AltiumRecord], board: &mut PcbBoard)
    ensures
        final(board)@ == (BoardView {
            footprints: old(board)@.footprints + components_of(record_views(records@)),
            ..old(board)@
        }),
        final(board).uuid == old(board).uuid,
        items_uuid_v7(*old(board)) ==> items_uuid_v7(*final(board)),
{
    proof {
        reveal_strlit("");
    }
    assert(""@ =~= Seq::<char>::empty());
    let ghost recs = record_views(records@);
    let ghost b0 = board@;
    let mut i: usize = 0;
    while i < records.len()
        invariant
            i <= records.len(),
            recs == record_views(records@),
            ""@ == Seq::<char>::empty(),
            board@ == (BoardView {
                footprints: b0.footprints + components_of(recs.take(i as int)),
                ..b0
            }),
            board.uuid == old(board).uuid,
            items_uuid_v7(*old(board)) ==> items_uuid_v7(*board),
        decreases records.len() - i,
    {
        let rec = &records[i];
        assert(recs.take(i + 1).drop_last() =~= recs.take(i as int));
        assert(recs.take(i + 1).last() == rec@);
        let designator = match rec.get("SOURCECOMPONENTNAME") {
            Some(v) => to_string(v),
            None => text_or_exec(rec, "NAME", ""),
        };
        if !designator.as_str().is_empty() {
            let uuid = new_uuid_v7();
            let fp = BoardFootprint {
                uuid,
                reference: designator,
                value: text_or_exec(rec, "COMMENT", ""),
                footprint_id: text_or_exec(rec, "PATTERN", ""),
                position: Point {
                    x: coord2_exec(rec, "LOCATION.X", "X", 0),
                    y: coord2_exec(rec, "LOCATION.Y", "Y", 0),
                },
                rotation: milli_or(rec, "ROTATION", 0),
                layer: layer_exec(rec),
                locked: false,
            };
            assert(Some(fp@) =~= stream_component(rec@));
            let ghost f0 = board@.footprints;
            board.footprints.push(fp);
            assert(board@.footprints =~= f0.push(fp@));
        }
        assert(board@ =~= (BoardView {
            footprints: b0.footprints + components_of(recs.take(i + 1)),
            ..b0
        }));
        i += 1;
    }
    assert(recs.take(records.len() as int) =~= recs);
}

} // verus!

verus! {

/// A coordinate from `k1`, else `k2`, if either is readable.
pub open spec fn coord_opt2(m: Map<Seq<char>, Seq<char>>, k1: Seq<char>, k2: Seq<char>) -> Option<i64> {
    match spec_get_fixed(m, k1, NM_PER_MIL as nat) {
        Some(v) => Some(v),
        None => spec_get_fixed(m, k2, NM_PER_MIL as nat),
    }
}

/// The board after one record of the combined header stream: a track
/// record (`Track` or `1`) with all four end coordinates adds a segment,
/// a via record (`Via` or `2`) with a readable position adds a via.
pub open spec fn header_step(b: BoardView, m: Map<Seq<char>, Seq<char>>) -> BoardView {
    let k = kind_text(m);
    if spec_eq_ignore_ascii_case(k, "Track"@) || k == "1"@ {
        match (
            spec_get_fixed(m, "X1"@, NM_PER_MIL as nat),
            spec_get_fixed(m, "Y1"@, NM_PER_MIL as nat),
            spec_get_fixed(m, "X2"@, NM_PER_MIL as nat),
            spec_get_fixed(m, "Y2"@, NM_PER_MIL as nat),
        ) {
            (Some(x1), Some(y1), Some(x2), Some(y2)) => BoardView {
                segments: b.segments.push(
                    SegmentView {
                        start: Point { x: x1, y: y1 },
                        end: Point { x: x2, y: y2 },
                        width: spec_coord_or(m, "WIDTH"@, 250_000),
                        layer: text_or(m, "LAYER"@, "Top Layer"@),
                        net: net_of(m),
                    },
                ),
                ..b
            },
            _ => b,
        }
    } else if spec_eq_ignore_ascii_case(k, "Via"@) || k == "2"@ {
        match (coord_opt2(m, "X"@, "LOCATION.X"@), coord_opt2(m, "Y"@, "LOCATION.Y"@)) {
            (Some(x), Some(y)) => BoardView { vias: b.vias.push(record_via(m, x, y)), ..b },
            _ => b,
        }
    } else {
        b
    }
}

/// The board after the records of the combined header stream.
pub open spec fn header_after(b: BoardView, recs: Seq<Map<Seq<char>, Seq<char>>>) -> BoardView
    decreases recs.len(),
{
    if recs.len() == 0 {
        b
    } else {
        header_step(header_after(b, recs.drop_last()), recs.last())
    }
}

fn coord_opt2_exec(rec: &AltiumRecord, k1: &str, k2: &str) -> (r: Option<i64>)
    ensures
        r == coord_opt2(rec@, k1@, k2@),
{
    match rec.get_coord_nm(k1) {
        Some(v) => Some(v),
        None => rec.get_coord_nm(k2),
    }
}

fn header_apply(rec: &AltiumRecord, board: &mut PcbBoard)
    ensures
        final(board)@ == header_step(old(board)@, rec@),
        final(board).uuid == old(board).uuid,
        items_uuid_v7(*old(board)) ==> items_uuid_v7(*final(board)),
{
    let ghost b0 = board@;
    let kind = match rec.get("RECORD") {
        Some(v) => to_string(v),
        None => kind_or_object(rec),
    };
    let ks = kind.as_str();
    if eq_ignore_ascii_case(ks, "Track") || str_eq(ks, "1") {
        match (
            rec.get_coord_nm("X1"),
            rec.get_coord_nm("Y1"),
            rec.get_coord_nm("X2"),
            rec.get_coord_nm("Y2"),
        ) {
            (Some(x1), Some(y1), Some(x2), Some(y2)) => {
                let uuid = new_uuid_v7();
                let seg = Segment {
                    uuid,
                    start: Point { x: x1, y: y1 },
                    end: Point { x: x2, y: y2 },
                    width: coord_or(rec, "WIDTH", 250_000),
                    layer: layer_exec(rec),
                    net: net_exec(rec),
                };
                board.segments.push(seg);
                assert(board@ =~= header_step(b0, rec@));
            },
            _ => {},
        }
    } else if eq_ignore_ascii_case(ks, "Via") || str_eq(ks, "2") {
        match (coord_opt2_exec(rec, "X", "LOCATION.X"), coord_opt2_exec(rec, "Y", "LOCATION.Y")) {
            (Some(x), Some(y)) => {
                let via = via_at(rec, x, y);
                board.vias.push(via);
                assert(board@ =~= header_step(b0, rec@));
            },
            _ => {},
        }
    }
}

fn kind_or_object(rec: &AltiumRecord) -> (r: String)
    ensures
        r@ == text_or(rec@, "OBJECTTYPE"@, Seq::empty()),
{
    proof {
        reveal_strlit("");
    }
    assert(""@ =~= Seq::<char>::empty());
    text_or_exec(rec, "OBJECTTYPE", "")
}

/// Adds the segments and vias of the combined header stream (see
/// [`header_step`]).
#[verifier::rlimit(80)]
#[verifier::spinoff_prover]
pub fn parse_all_pcb_records(records: &[AltiumRecord], board: &mut PcbBoard)
    ensures
        final(board)@ == header_after(old(board)@, record_views(records@)),
        final(board).uuid == old(board).uuid,
        items_uuid_v7(*old(board)) ==> items_uuid_v7(*final(board)),
{
    let ghost recs = record_views(records@);
    let ghost b0 = board@;
    let mut i: usize = 0;
    while i < records.len()
        invariant
            i <= records.len(),
            recs == record_views(records@),
            board@ == header_after(b0, recs.take(i as int)),
            board.uuid == old(board).uuid,
            items_uuid_v7(*old(board)) ==> items_uuid_v7(*board),
        decreases records.len() - i,
    {
        assert(recs.take(i + 1).drop_last() =~= recs.take(i as int));
        assert(recs.take(i + 1).last() == records@[i as int]@);
        header_apply(&records[i], board);
        i += 1;
    }
    assert(recs.take(records.len() as int) =~= recs);
}

/// A via's pad diameter is the record's `DIAMETER` in nanometres
/// (0.6 mm when absent or unreadable) and its drill the `HOLESIZE`
/// (0.3 mm), at the position it is given.
pub proof fn law_via_sizes(m: Map<Seq<char>, Seq<char>>, x: i64, y: i64)
    ensures
        record_via(m, x, y).diameter == (match spec_get_fixed(m, "DIAMETER"@, 25400) {
            Some(v) => v,
            None => 600_000i64,
        }),
        record_via(m, x, y).drill == (match spec_get_fixed(m, "HOLESIZE"@, 25400) {
            Some(v) => v,
            None => 300_000i64,
        }),
        record_via(m, x, y).position == (Point { x, y }),
{
}

/// A track-stream record: from `X1` / `Y1` (else `LOCATION.X` /
/// `LOCATION.Y`, else 0) to `X2` / `Y2` (else `CORNER.X` / `CORNER.Y`,
/// else the start), `WIDTH` wide (0.25 mm), on `LAYER` (`Top Layer`),
/// in net `NET` (0).
pub proof fn law_track_segment_fields(m: Map<Seq<char>, Seq<char>>)
    ensures
        ({
            let x1 = spec_coord_or(m, "X1"@, spec_coord_or(m, "LOCATION.X"@, 0));
            let y1 = spec_coord_or(m, "Y1"@, spec_coord_or(m, "LOCATION.Y"@, 0));
            &&& track_segment(m).start == (Point { x: x1, y: y1 })
            &&& track_segment(m).end == (Point {
                x: spec_coord_or(m, "X2"@, spec_coord_or(m, "CORNER.X"@, x1)),
                y: spec_coord_or(m, "Y2"@, spec_coord_or(m, "CORNER.Y"@, y1)),
            })
            &&& track_segment(m).width == spec_coord_or(m, "WIDTH"@, 250_000)
            &&& track_segment(m).layer == (if m.contains_key("LAYER"@) {
                m["LAYER"@]
            } else {
                "Top Layer"@
            })
        }),
{
}

/// A via-stream record places its via at `LOCATION.X` / `LOCATION.Y`
/// (else `X` / `Y`, else 0), spanning the top and bottom layers.
pub proof fn law_stream_via_position(m: Map<Seq<char>, Seq<char>>)
    ensures
        stream_via(m).position.x == spec_coord_or(m, "LOCATION.X"@, spec_coord_or(m, "X"@, 0)),
        stream_via(m).position.y == spec_coord_or(m, "LOCATION.Y"@, spec_coord_or(m, "Y"@, 0)),
        stream_via(m).layers == seq!["Top Layer"@, "Bottom Layer"@],
{
}

/// A component-stream record places a footprint exactly when its
/// designator (`SOURCECOMPONENTNAME`, else `NAME`) is non-empty: value
/// from `COMMENT`, footprint from `PATTERN`, position from `LOCATION.X` /
/// `LOCATION.Y` (else `X` / `Y`), rotation from `ROTATION`, layer from
/// `LAYER` (`Top Layer`), unlocked.
pub proof fn law_stream_component_fields(m: Map<Seq<char>, Seq<char>>)
    ensures
        ({
            let d = if m.contains_key("SOURCECOMPONENTNAME"@) {
                m["SOURCECOMPONENTNAME"@]
            } else if m.contains_key("NAME"@) {
                m["NAME"@]
            } else {
                Seq::<char>::empty()
            };
            &&& (stream_component(m) is None <==> d.len() == 0)
            &&& stream_component(m) matches Some(f) ==> {
                &&& f.reference == d
                &&& f.value == (if m.contains_key("COMMENT"@) {
                    m["COMMENT"@]
                } else {
                    Seq::<char>::empty()
                })
                &&& f.footprint_id == (if m.contains_key("PATTERN"@) {
                    m["PATTERN"@]
                } else {
                    Seq::<char>::empty()
                })
                &&& f.position.x == spec_coord_or(m, "LOCATION.X"@, spec_coord_or(m, "X"@, 0))
                &&& f.position.y == spec_coord_or(m, "LOCATION.Y"@, spec_coord_or(m, "Y"@, 0))
                &&& f.rotation == spec_milli_or(m, "ROTATION"@, 0)
                &&& f.layer == (if m.contains_key("LAYER"@) {
                    m["LAYER"@]
                } else {
                    "Top Layer"@
                })
                &&& !f.locked
            }
        }),
{
}

/// In the combined header stream, a track record with readable `X1`,
/// `Y1`, `X2` and `Y2` adds one segment between those points (`WIDTH`
/// wide, 0.25 mm by default) and nothing else.
pub proof fn law_header_track(b: BoardView, m: Map<Seq<char>, Seq<char>>, x1: i64, y1: i64, x2: i64, y2: i64)
    requires
        spec_eq_ignore_ascii_case(kind_text(m), "Track"@),
        spec_get_fixed(m, "X1"@, 25400) == Some(x1),
        spec_get_fixed(m, "Y1"@, 25400) == Some(y1),
        spec_get_fixed(m, "X2"@, 25400) == Some(x2),
        spec_get_fixed(m, "Y2"@, 25400) == Some(y2),
    ensures
        header_step(b, m).segments.len() == b.segments.len() + 1,
        header_step(b, m).segments.drop_last() == b.segments,
        header_step(b, m).segments.last().start == (Point { x: x1, y: y1 }),
        header_step(b, m).segments.last().end == (Point { x: x2, y: y2 }),
        header_step(b, m).segments.last().width == spec_coord_or(m, "WIDTH"@, 250_000),
        header_step(b, m).vias == b.vias,
        header_step(b, m).footprints == b.footprints,
{
    assert(header_step(b, m).segments.drop_last() =~= b.segments);
}

/// Whether no two nets of a list share a name.
pub open spec fn net_names_distinct(nets: Seq<(u32, Seq<char>)>) -> bool {
    forall|i: int, j: int| 0 <= i < j < nets.len() ==> nets[i].1 != nets[j].1
}

/// Reading board records never lists two nets of the same name, and a
/// record naming a new net (`NETNAME`, else `NAME`) appends it numbered
/// by `NETID`, else `ID`, else the number of nets so far.
pub proof fn law_nets_unique(nets: Seq<(u32, Seq<char>)>, recs: Seq<Map<Seq<char>, Seq<char>>>)
    requires
        net_names_distinct(nets),
    ensures
        net_names_distinct(nets_after(nets, recs)),
    decreases recs.len(),
{
    if recs.len() > 0 {
        law_nets_unique(nets, recs.drop_last());
        let prev = nets_after(nets, recs.drop_last());
        let m = recs.last();
        let next = net_step(prev, m);
        if next != prev {
            let n = next.last().1;
            assert(!has_net(prev, n));
            assert forall|i: int, j: int| 0 <= i < j < next.len() implies next[i].1 != next[j].1 by {
                if j == next.len() - 1 {
                    assert(prev[i] == next[i]);
                    if prev[i].1 == n {
                        assert(has_net(prev, n));
                    }
                } else {
                    assert(prev[i] == next[i] && prev[j] == next[j]);
                }
            }
        }
    }
}

/// A record naming a net not yet listed appends it with its number.
pub proof fn law_new_net(nets: Seq<(u32, Seq<char>)>, m: Map<Seq<char>, Seq<char>>, name: Seq<char>)
    requires
        m.contains_key("NETNAME"@) && m["NETNAME"@] == name || !m.contains_key("NETNAME"@)
            && m.contains_key("NAME"@) && m["NAME"@] == name,
        forall|k: int| 0 <= k < nets.len() ==> nets[k].1 != name,
    ensures
        net_step(nets, m) == nets.push(
            (
                (match spec_get_i64(m, "NETID"@) {
                    Some(v) => v,
                    None => match spec_get_i64(m, "ID"@) {
                        Some(v) => v,
                        None => nets.len() as i64,
                    },
                }) as u32,
                name,
            ),
        ),
{
}

/// In the combined header stream, a via record with a readable `X` (else
/// `LOCATION.X`) and `Y` (else `LOCATION.Y`) adds one via there.
pub proof fn law_header_via(b: BoardView, m: Map<Seq<char>, Seq<char>>, x: i64, y: i64)
    requires
        spec_eq_ignore_ascii_case(kind_text(m), "Via"@),
        !spec_eq_ignore_ascii_case(kind_text(m), "Track"@),
        kind_text(m) != "1"@,
        coord_opt2(m, "X"@, "LOCATION.X"@) == Some(x),
        coord_opt2(m, "Y"@, "LOCATION.Y"@) == Some(y),
    ensures
        header_step(b, m).vias == b.vias.push(record_via(m, x, y)),
        header_step(b, m).segments == b.segments,
        header_step(b, m).vias.last().position == (Point { x, y }),
{
}

} // verus!
