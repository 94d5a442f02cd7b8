//! Whole-document import from Compound File Binary bytes.

use vstd::prelude::*;
use crate::altium::cfb::{header_ok, spec_streams, stream_bytes, stream_lookup, CfbContainer};
use crate::altium::error::AltiumImportError;
use crate::altium::pcblib::{fp_views, parse_footprints_from_records, spec_pcblib, Footprint, FootprintView};
use crate::altium::schdoc::{parse_schdoc_records, spec_schdoc, SchematicSheet};
use crate::altium::schlib::{lib_views, parse_symbols_from_records, spec_schlib, LibSymbol, LibSymbolView};
use crate::altium::pcbdoc::{
    components_of, header_after, nets_after, parse_all_pcb_records, parse_board_metadata,
    parse_components, parse_tracks, parse_vias, stream_via, track_segment, BoardView, LayerDef,
    PcbBoard,
};
use crate::altium::record::AltiumRecord;
use crate::ids::new_uuid_v7;
use crate::altium::stream::{parse_record_stream, record_views, spec_stream};
use crate::text::{chars_of, concat, spec_to_lowercase, str_eq, to_lowercase, to_string};

verus! {

/// The records of a stream's bytes.
pub open spec fn stream_records(b: Seq<u8>) -> Seq<Map<Seq<char>, Seq<char>>> {
    spec_stream(b, 0)
}

/// The records of the named stream of a container, read through
/// [`stream_bytes`], or none when there is no such stream.
pub open spec fn named_records(es: Seq<(Seq<char>, Seq<u8>)>, name: Seq<char>) -> Seq<
    Map<Seq<char>, Seq<char>>,
> {
    match stream_lookup(es, name) {
        Some(raw) => stream_records(stream_bytes(raw)),
        None => Seq::empty(),
    }
}

/// Imports an Altium schematic: the records of its `FileHeader` stream
/// converted to a sheet (see [`spec_schdoc`]).
pub fn import_schdoc_bytes(bytes: &[u8]) -> (r: Result<SchematicSheet, AltiumImportError>)
    ensures
        match r {
            Ok(sheet) => header_ok(bytes@) && stream_lookup(
                spec_streams(bytes@),
                "FileHeader"@,
            ) is Some && sheet@ == spec_schdoc(
                named_records(spec_streams(bytes@), "FileHeader"@),
            ),
            Err(e) => if !header_ok(bytes@) {
                e == AltiumImportError::InvalidCfbHeader
            } else {
                stream_lookup(spec_streams(bytes@), "FileHeader"@) is None && (
                e matches AltiumImportError::StreamNotFound(s) && s@ == "FileHeader"@)
            },
        },
{
    let cfb = CfbContainer::parse(bytes)?;
    let data = cfb.get_stream("FileHeader")?;
    let records = match parse_record_stream(data.as_slice()) {
        Ok(v) => v,
        Err(e) => {
            return Err(e);
        },
    };
    parse_schdoc_records(records.as_slice())
}

} // verus!

verus! {

/// Whether a stream name is one of the per-item streams of a library:
/// not `exclude`, not `FileHeader`, and not starting with `/`.
pub open spec fn item_stream_name(name: Seq<char>, exclude: Seq<char>) -> bool {
    name != "FileHeader"@ && name != exclude && !(name.len() > 0 && name[0] == '/')
}

/// `acc` followed by those footprints of `new` whose names are not yet
/// taken, in order.
pub open spec fn fp_add_new(acc: Seq<FootprintView>, new: Seq<FootprintView>) -> Seq<FootprintView>
    decreases new.len(),
{
    if new.len() == 0 {
        acc
    } else {
        let a = fp_add_new(acc, new.drop_last());
        if exists|k: int| 0 <= k < a.len() && a[k].name == new.last().name {
            a
        } else {
            a.push(new.last())
        }
    }
}

/// `acc` followed by those symbols of `new` whose names are not yet
/// taken, in order.
pub open spec fn sym_add_new(acc: Seq<LibSymbolView>, new: Seq<LibSymbolView>) -> Seq<LibSymbolView>
    decreases new.len(),
{
    if new.len() == 0 {
        acc
    } else {
        let a = sym_add_new(acc, new.drop_last());
        if exists|k: int| 0 <= k < a.len() && a[k].name == new.last().name {
            a
        } else {
            a.push(new.last())
        }
    }
}

fn add_new_footprints(acc: &mut Vec<Footprint>, new: Vec<Footprint>)
    ensures
        fp_views(final(acc)@) == fp_add_new(fp_views(old(acc)@), fp_views(new@)),
{
    let ghost a0 = fp_views(acc@);
    let ghost n0 = fp_views(new@);
    let mut new = new;
    let mut i: usize = 0;
    let total = new.len();
    while new.len() > 0
        invariant
            i + new.len() == total,
            total == n0.len(),
            fp_views(new@) == n0.skip(i as int),
            fp_views(acc@) == fp_add_new(a0, n0.take(i as int)),
        decreases new.len(),
    {
        let ghost before = new@;
        let f = new.remove(0);
        assert(f@ == n0[i as int]) by {
            assert(fp_views(before)[0] == before[0]@);
            assert(n0.skip(i as int)[0] == n0[i as int]);
        }
        assert(n0.take(i + 1).drop_last() =~= n0.take(i as int));
        assert(new@ =~= before.subrange(1, before.len() as int));
        assert forall|j: int| 0 <= j < new@.len() implies fp_views(new@)[j] == n0.skip(i + 1)[j] by {
            assert(fp_views(before)[j + 1] == before[j + 1]@);
            assert(n0.skip(i as int)[j + 1] == n0[i + 1 + j]);
        }
        assert(fp_views(new@) =~= n0.skip(i + 1));
        let ghost cur = fp_views(acc@);
        let mut k: usize = 0;
        let mut found = false;
        while k < acc.len()
            invariant
                k <= acc.len(),
                cur == fp_views(acc@),
                found == (exists|j: int| 0 <= j < k && cur[j].name == f@.name),
            decreases acc.len() - k,
        {
            if str_eq(acc[k].name.as_str(), f.name.as_str()) {
                found = true;
            }
            assert(cur[k as int].name == acc@[k as int].name@);
            k += 1;
        }
        if !found {
            acc.push(f);
            assert(fp_views(acc@) =~= cur.push(n0[i as int]));
        }
        i += 1;
    }
    assert(n0.take(total as int) =~= n0);
}

fn add_new_symbols(acc: &mut Vec<LibSymbol>, new: Vec<LibSymbol>)
    ensures
        lib_views(final(acc)@) == sym_add_new(lib_views(old(acc)@), lib_views(new@)),
{
    let ghost a0 = lib_views(acc@);
    let ghost n0 = lib_views(new@);
    let mut new = new;
    let mut i: usize = 0;
    let total = new.len();
    while new.len() > 0
        invariant
            i + new.len() == total,
            total == n0.len(),
            lib_views(new@) == n0.skip(i as int),
            lib_views(acc@) == sym_add_new(a0, n0.take(i as int)),
        decreases new.len(),
    {
        let ghost before = new@;
        let f = new.remove(0);
        assert(f@ == n0[i as int]) by {
            assert(lib_views(before)[0] == before[0]@);
            assert(n0.skip(i as int)[0] == n0[i as int]);
        }
        assert(n0.take(i + 1).drop_last() =~= n0.take(i as int));
        assert(new@ =~= before.subrange(1, before.len() as int));
        assert forall|j: int| 0 <= j < new@.len() implies lib_views(new@)[j] == n0.skip(i + 1)[j] by {
            assert(lib_views(before)[j + 1] == before[j + 1]@);
            assert(n0.skip(i as int)[j + 1] == n0[i + 1 + j]);
        }
        assert(lib_views(new@) =~= n0.skip(i + 1));
        let ghost cur = lib_views(acc@);
        let mut k: usize = 0;
        let mut found = false;
        while k < acc.len()
            invariant
                k <= acc.len(),
                cur == lib_views(acc@),
                found == (exists|j: int| 0 <= j < k && cur[j].name == f@.name),
            decreases acc.len() - k,
        {
            if str_eq(acc[k].name.as_str(), f.name.as_str()) {
                found = true;
            }
            assert(cur[k as int].name == acc@[k as int].name@);
            k += 1;
        }
        if !found {
            acc.push(f);
            assert(lib_views(acc@) =~= cur.push(n0[i as int]));
        }
        i += 1;
    }
    assert(n0.take(total as int) =~= n0);
}

} // verus!

verus! {

/// Whether a stream of a library file is read for items: every stream
/// when `filtered` is false, else those that [`item_stream_name`] keeps.
pub open spec fn lib_item(name: Seq<char>, filtered: bool, exclude: Seq<char>) -> bool {
    !filtered || item_stream_name(name, exclude)
}

/// `acc` grown by the footprints of the item streams of `es`, in order,
/// each added only when its name is not yet taken.
pub open spec fn fps_from_items(
    acc: Seq<FootprintView>,
    es: Seq<(Seq<char>, Seq<u8>)>,
    filtered: bool,
    exclude: Seq<char>,
) -> Seq<FootprintView>
    decreases es.len(),
{
    if es.len() == 0 {
        acc
    } else {
        let a = fps_from_items(acc, es.drop_last(), filtered, exclude);
        if lib_item(es.last().0, filtered, exclude) {
            fp_add_new(a, spec_pcblib(stream_records(es.last().1)))
        } else {
            a
        }
    }
}

/// `acc` grown by the symbols of the item streams of `es`, in order,
/// each added only when its name is not yet taken.
pub open spec fn syms_from_items(
    acc: Seq<LibSymbolView>,
    es: Seq<(Seq<char>, Seq<u8>)>,
    filtered: bool,
    exclude: Seq<char>,
) -> Seq<LibSymbolView>
    decreases es.len(),
{
    if es.len() == 0 {
        acc
    } else {
        let a = syms_from_items(acc, es.drop_last(), filtered, exclude);
        if lib_item(es.last().0, filtered, exclude) {
            sym_add_new(a, spec_schlib(stream_records(es.last().1)))
        } else {
            a
        }
    }
}

fn starts_with_slash(s: &str) -> (r: bool)
    ensures
        r == (s@.len() > 0 && s@[0] == '/'),
{
    let cs = chars_of(s);
    cs.len() > 0 && cs[0] == '/'
}

fn is_item_stream(name: &str, filtered: bool, exclude: &str) -> (r: bool)
    ensures
        r == lib_item(name@, filtered, exclude@),
{
    !filtered || (!str_eq(name, "FileHeader") && !str_eq(name, exclude) && !starts_with_slash(name))
}

fn add_item_footprints(cfb: &CfbContainer, acc: &mut Vec<Footprint>, filtered: bool, exclude: &str)
    ensures
        fp_views(final(acc)@) == fps_from_items(fp_views(old(acc)@), cfb@, filtered, exclude@),
{
    let ghost es = cfb@;
    let ghost a0 = fp_views(acc@);
    let mut i: usize = 0;
    while i < cfb.streams.len()
        invariant
            i <= cfb.streams.len(),
            es == cfb@,
            fp_views(acc@) == fps_from_items(a0, es.take(i as int), filtered, exclude@),
        decreases cfb.streams.len() - i,
    {
        assert(es.take(i + 1).drop_last() =~= es.take(i as int));
        let name = &cfb.streams[i].0;
        let raw = &cfb.streams[i].1;
        assert(es.take(i + 1).last() == (name@, raw@));
        if is_item_stream(name.as_str(), filtered, exclude) {
            let records = match parse_record_stream(raw.as_slice()) {
                Ok(v) => v,
                Err(_) => Vec::new(),
            };
            let parsed = match parse_footprints_from_records(records.as_slice()) {
                Ok(v) => v,
                Err(_) => Vec::new(),
            };
            add_new_footprints(acc, parsed);
        }
        i += 1;
    }
    assert(es.take(cfb.streams.len() as int) =~= es);
}

fn add_item_symbols(cfb: &CfbContainer, acc: &mut Vec<LibSymbol>, filtered: bool, exclude: &str)
    ensures
        lib_views(final(acc)@) == syms_from_items(lib_views(old(acc)@), cfb@, filtered, exclude@),
{
    let ghost es = cfb@;
    let ghost a0 = lib_views(acc@);
    let mut i: usize = 0;
    while i < cfb.streams.len()
        invariant
            i <= cfb.streams.len(),
            es == cfb@,
            lib_views(acc@) == syms_from_items(a0, es.take(i as int), filtered, exclude@),
        decreases cfb.streams.len() - i,
    {
        assert(es.take(i + 1).drop_last() =~= es.take(i as int));
        let name = &cfb.streams[i].0;
        let raw = &cfb.streams[i].1;
        assert(es.take(i + 1).last() == (name@, raw@));
        if is_item_stream(name.as_str(), filtered, exclude) {
            let records = match parse_record_stream(raw.as_slice()) {
                Ok(v) => v,
                Err(_) => Vec::new(),
            };
            let parsed = match parse_symbols_from_records(records.as_slice()) {
                Ok(v) => v,
                Err(_) => Vec::new(),
            };
            add_new_symbols(acc, parsed);
        }
        i += 1;
    }
    assert(es.take(cfb.streams.len() as int) =~= es);
}

/// The footprints of a footprint library's `FileHeader` stream, if any.
pub open spec fn header_footprints(es: Seq<(Seq<char>, Seq<u8>)>) -> Seq<FootprintView> {
    match stream_lookup(es, "FileHeader"@) {
        Some(raw) => spec_pcblib(stream_records(stream_bytes(raw))),
        None => Seq::empty(),
    }
}

/// The symbols of a symbol library's `FileHeader` stream, if any.
pub open spec fn header_symbols(es: Seq<(Seq<char>, Seq<u8>)>) -> Seq<LibSymbolView> {
    match stream_lookup(es, "FileHeader"@) {
        Some(raw) => spec_schlib(stream_records(stream_bytes(raw))),
        None => Seq::empty(),
    }
}

/// The footprints of a footprint library: those of the `FileHeader`
/// stream, then those of the other streams (not `Library`, not starting
/// with `/`) whose names are new.
pub open spec fn spec_pcblib_file(es: Seq<(Seq<char>, Seq<u8>)>) -> Seq<FootprintView> {
    fps_from_items(header_footprints(es), es, true, "Library"@)
}

/// The symbols of a symbol library: those of the `FileHeader` stream,
/// then those of the other streams (not `Storage`, not starting with `/`)
/// whose names are new.
pub open spec fn spec_schlib_file(es: Seq<(Seq<char>, Seq<u8>)>) -> Seq<LibSymbolView> {
    syms_from_items(header_symbols(es), es, true, "Storage"@)
}

fn records_of(cfb: &CfbContainer, name: &str) -> (r: Vec<AltiumRecord>)
    ensures
        record_views(r@) == named_records(cfb@, name@),
{
    match cfb.get_stream(name) {
        Ok(data) => match parse_record_stream(data.as_slice()) {
            Ok(v) => v,
            Err(_) => Vec::new(),
        },
        Err(_) => {
            let v: Vec<AltiumRecord> = Vec::new();
            assert(record_views(v@) =~= Seq::empty());
            v
        },
    }
}

/// Imports every footprint of an Altium footprint library (see
/// [`spec_pcblib_file`]); `InvalidCfbHeader` exactly when the container
/// header is not acceptable.
pub fn import_pcblib_bytes(bytes: &[u8]) -> (r: Result<Vec<Footprint>, AltiumImportError>)
    ensures
        match r {
            Ok(v) => header_ok(bytes@) && fp_views(v@) == spec_pcblib_file(spec_streams(bytes@)),
            Err(e) => !header_ok(bytes@) && e == AltiumImportError::InvalidCfbHeader,
        },
{
    let cfb = CfbContainer::parse(bytes)?;
    let records = records_of(&cfb, "FileHeader");
    let mut footprints = match parse_footprints_from_records(records.as_slice()) {
        Ok(v) => v,
        Err(_) => Vec::new(),
    };
    add_item_footprints(&cfb, &mut footprints, true, "Library");
    Ok(footprints)
}

/// Imports every symbol of an Altium symbol library (see
/// [`spec_schlib_file`]); `InvalidCfbHeader` exactly when the container
/// header is not acceptable.
pub fn import_schlib_bytes(bytes: &[u8]) -> (r: Result<Vec<LibSymbol>, AltiumImportError>)
    ensures
        match r {
            Ok(v) => header_ok(bytes@) && lib_views(v@) == spec_schlib_file(spec_streams(bytes@)),
            Err(e) => !header_ok(bytes@) && e == AltiumImportError::InvalidCfbHeader,
        },
{
    let cfb = CfbContainer::parse(bytes)?;
    let records = records_of(&cfb, "FileHeader");
    let mut symbols = match parse_symbols_from_records(records.as_slice()) {
        Ok(v) => v,
        Err(_) => Vec::new(),
    };
    add_item_symbols(&cfb, &mut symbols, true, "Storage");
    Ok(symbols)
}

/// The symbols and footprints extracted from an integrated library.
#[derive(Debug)]
pub struct ExtractedIntLib {
    pub symbols: Vec<LibSymbol>,
    pub footprints: Vec<Footprint>,
}

/// Imports an Altium integrated library: every stream is read both as
/// symbols and as footprints, and each symbol or footprint whose name is
/// new is kept, in stream order.
pub fn import_intlib_bytes(bytes: &[u8]) -> (r: Result<ExtractedIntLib, AltiumImportError>)
    ensures
        match r {
            Ok(x) => header_ok(bytes@) && lib_views(x.symbols@) == syms_from_items(
                Seq::empty(),
                spec_streams(bytes@),
                false,
                Seq::empty(),
            ) && fp_views(x.footprints@) == fps_from_items(
                Seq::empty(),
                spec_streams(bytes@),
                false,
                Seq::empty(),
            ),
            Err(e) => !header_ok(bytes@) && e == AltiumImportError::InvalidCfbHeader,
        },
{
    let cfb = CfbContainer::parse(bytes)?;
    let mut symbols: Vec<LibSymbol> = Vec::new();
    let mut footprints: Vec<Footprint> = Vec::new();
    assert(lib_views(symbols@) =~= Seq::empty());
    assert(fp_views(footprints@) =~= Seq::empty());
    proof {
        reveal_strlit("");
    }
    assert(""@ =~= Seq::<char>::empty());
    add_item_symbols(&cfb, &mut symbols, false, "");
    add_item_footprints(&cfb, &mut footprints, false, "");
    Ok(ExtractedIntLib { symbols, footprints })
}

} // verus!

verus! {

/// The six layers every imported board starts with.
pub open spec fn default_layers() -> Seq<(u32, Seq<char>, Seq<char>)> {
    seq![
        (0u32, "Top Layer"@, "signal"@),
        (1u32, "Bottom Layer"@, "signal"@),
        (2u32, "Top Solder"@, "mask"@),
        (3u32, "Bottom Solder"@, "mask"@),
        (4u32, "Top Overlay"@, "silkscreen"@),
        (5u32, "Bottom Overlay"@, "silkscreen"@),
    ]
}

/// The board an import starts from: version 1, 1.6 mm thick, the default
/// layers and nothing else.
pub open spec fn blank_board() -> BoardView {
    BoardView {
        version: 1,
        generator: "Oxide Altium Importer"@,
        thickness: 1_600_000,
        layers: default_layers(),
        nets: Seq::empty(),
        footprints: Seq::empty(),
        segments: Seq::empty(),
        vias: Seq::empty(),
    }
}

/// The board of a PCB document: nets from the `Board` stream, segments
/// from `Tracks`, vias from `Vias`, footprints from `Components`, then the
/// tracks and vias of `FileHeader`; an absent stream adds nothing.
pub open spec fn spec_pcbdoc(es: Seq<(Seq<char>, Seq<u8>)>) -> BoardView {
    let b0 = blank_board();
    let b1 = BoardView { nets: nets_after(b0.nets, named_records(es, "Board"@)), ..b0 };
    let b2 = BoardView {
        segments: b1.segments + named_records(es, "Tracks"@).map_values(
            |m: Map<Seq<char>, Seq<char>>| track_segment(m),
        ),
        ..b1
    };
    let b3 = BoardView {
        vias: b2.vias + named_records(es, "Vias"@).map_values(
            |m: Map<Seq<char>, Seq<char>>| stream_via(m),
        ),
        ..b2
    };
    let b4 = BoardView {
        footprints: b3.footprints + components_of(named_records(es, "Components"@)),
        ..b3
    };
    header_after(b4, named_records(es, "FileHeader"@))
}

fn layer(id: u32, name: &str, kind: &str) -> (r: LayerDef)
    ensures
        r@ == (id, name@, kind@),
{
    LayerDef { id, name: to_string(name), layer_type: to_string(kind) }
}

fn default_layers_exec() -> (r: Vec<LayerDef>)
    ensures
        r@.map_values(|l: LayerDef| l@) == default_layers(),
{
    let mut v: Vec<LayerDef> = Vec::new();
    v.push(layer(0, "Top Layer", "signal"));
    v.push(layer(1, "Bottom Layer", "signal"));
    v.push(layer(2, "Top Solder", "mask"));
    v.push(layer(3, "Bottom Solder", "mask"));
    v.push(layer(4, "Top Overlay", "silkscreen"));
    v.push(layer(5, "Bottom Overlay", "silkscreen"));
    assert(v@.map_values(|l: LayerDef| l@) =~= default_layers());
    v
}

/// Imports an Altium PCB document (see [`spec_pcbdoc`]); the board gets a
/// fresh identifier. `InvalidCfbHeader` exactly when the container header
/// is not acceptable.
pub fn import_pcbdoc_bytes(bytes: &[u8]) -> (r: Result<PcbBoard, AltiumImportError>)
    ensures
        match r {
            Ok(b) => header_ok(bytes@) && b@ == spec_pcbdoc(spec_streams(bytes@)),
            Err(e) => !header_ok(bytes@) && e == AltiumImportError::InvalidCfbHeader,
        },
{
    let cfb = CfbContainer::parse(bytes)?;
    let uuid = new_uuid_v7();
    let mut board = PcbBoard {
        uuid,
        version: 1,
        generator: to_string("Oxide Altium Importer"),
        thickness: 1_600_000,
        layers: default_layers_exec(),
        nets: Vec::new(),
        footprints: Vec::new(),
        segments: Vec::new(),
        vias: Vec::new(),
    };
    assert(board@ =~= blank_board());
    let board_recs = records_of(&cfb, "Board");
    parse_board_metadata(board_recs.as_slice(), &mut board);
    let track_recs = records_of(&cfb, "Tracks");
    parse_tracks(track_recs.as_slice(), &mut board);
    let via_recs = records_of(&cfb, "Vias");
    parse_vias(via_recs.as_slice(), &mut board);
    let comp_recs = records_of(&cfb, "Components");
    parse_components(comp_recs.as_slice(), &mut board);
    let header_recs = records_of(&cfb, "FileHeader");
    parse_all_pcb_records(header_recs.as_slice(), &mut board);
    Ok(board)
}

} // verus!

verus! {

/// What an import by extension gives back.
#[derive(Debug)]
pub enum AltiumImportResult {
    Schematic(SchematicSheet),
    Pcb(PcbBoard),
    SymbolLibrary(Vec<LibSymbol>),
    FootprintLibrary(Vec<Footprint>),
    IntegratedLibrary(ExtractedIntLib),
}

/// Whether a lower-case extension names one of the five Altium formats.
pub open spec fn known_extension(e: Seq<char>) -> bool {
    e == "schdoc"@ || e == "pcbdoc"@ || e == "schlib"@ || e == "pcblib"@ || e == "intlib"@
}

/// The message for an extension that names no Altium format.
pub open spec fn unsupported_message(e: Seq<char>) -> Seq<char> {
    "Unknown or unsupported Altium extension: ."@ + e
}

/// Imports file bytes by their extension, compared in lower case:
/// `schdoc`, `pcbdoc`, `schlib`, `pcblib` or `intlib` go to the matching
/// importer (whose contract the result follows); any other extension is
/// `UnsupportedFormat` with a message naming it.
pub fn import_altium_bytes(ext: &str, bytes: &[u8]) -> (r: Result<AltiumImportResult, AltiumImportError>)
    ensures
        ({
            let e = spec_to_lowercase(ext@);
            let es = spec_streams(bytes@);
            match r {
                Ok(AltiumImportResult::Schematic(s)) => e == "schdoc"@ && header_ok(bytes@)
                    && stream_lookup(es, "FileHeader"@) is Some && s@ == spec_schdoc(
                    named_records(es, "FileHeader"@),
                ),
                Ok(AltiumImportResult::Pcb(b)) => e == "pcbdoc"@ && header_ok(bytes@) && b@
                    == spec_pcbdoc(es),
                Ok(AltiumImportResult::SymbolLibrary(v)) => e == "schlib"@ && header_ok(bytes@)
                    && lib_views(v@) == spec_schlib_file(es),
                Ok(AltiumImportResult::FootprintLibrary(v)) => e == "pcblib"@ && header_ok(bytes@)
                    && fp_views(v@) == spec_pcblib_file(es),
                Ok(AltiumImportResult::IntegratedLibrary(x)) => e == "intlib"@ && header_ok(bytes@)
                    && lib_views(x.symbols@) == syms_from_items(Seq::empty(), es, false, Seq::empty())
                    && fp_views(x.footprints@) == fps_from_items(
                    Seq::empty(),
                    es,
                    false,
                    Seq::empty(),
                ),
                Err(err) => if !known_extension(e) {
                    err matches AltiumImportError::UnsupportedFormat(m) && m@ == unsupported_message(e)
                } else if !header_ok(bytes@) {
                    err == AltiumImportError::InvalidCfbHeader
                } else {
                    e == "schdoc"@ && stream_lookup(es, "FileHeader"@) is None && (
                    err matches AltiumImportError::StreamNotFound(s) && s@ == "FileHeader"@)
                },
            }
        }),
{
    let lower = to_lowercase(ext);
    let e = lower.as_str();
    if str_eq(e, "schdoc") {
        let sheet = import_schdoc_bytes(bytes)?;
        Ok(AltiumImportResult::Schematic(sheet))
    } else if str_eq(e, "pcbdoc") {
        let board = import_pcbdoc_bytes(bytes)?;
        Ok(AltiumImportResult::Pcb(board))
    } else if str_eq(e, "schlib") {
        let syms = import_schlib_bytes(bytes)?;
        Ok(AltiumImportResult::SymbolLibrary(syms))
    } else if str_eq(e, "pcblib") {
        let fps = import_pcblib_bytes(bytes)?;
        Ok(AltiumImportResult::FootprintLibrary(fps))
    } else if str_eq(e, "intlib") {
        let lib = import_intlib_bytes(bytes)?;
        Ok(AltiumImportResult::IntegratedLibrary(lib))
    } else {
        let msg = concat("Unknown or unsupported Altium extension: .", e);
        proof {
            reveal_strlit("schdoc");
            reveal_strlit("pcbdoc");
            reveal_strlit("schlib");
            reveal_strlit("pcblib");
            reveal_strlit("intlib");
        }
        Err(AltiumImportError::UnsupportedFormat(msg))
    }
}

} // verus!
