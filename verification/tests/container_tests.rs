use std::io::Write;

use flate2::write::ZlibEncoder;
use flate2::Compression;
use oxide_eda::altium::cfb::CfbContainer;
use oxide_eda::altium::error::AltiumImportError;
use oxide_eda::altium::import::{
    import_altium_bytes, import_intlib_bytes, import_pcbdoc_bytes, import_pcblib_bytes,
    import_schdoc_bytes, import_schlib_bytes, AltiumImportResult,
};

const SECTOR: usize = 512;
const ENDOFCHAIN: u32 = 0xFFFF_FFFE;
const FREESECT: u32 = 0xFFFF_FFFF;
const FATSECT: u32 = 0xFFFF_FFFD;

fn put_u16(d: &mut [u8], off: usize, v: u16) {
    d[off..off + 2].copy_from_slice(&v.to_le_bytes());
}

fn put_u32(d: &mut [u8], off: usize, v: u32) {
    d[off..off + 4].copy_from_slice(&v.to_le_bytes());
}

fn put_entry(d: &mut [u8], off: usize, name: &str, obj_type: u8, start: u32, size: u64) {
    let units: Vec<u16> = name.encode_utf16().collect();
    for (i, u) in units.iter().enumerate() {
        put_u16(d, off + 2 * i, *u);
    }
    put_u16(d, off + 64, ((units.len() + 1) * 2) as u16);
    d[off + 66] = obj_type;
    put_u32(d, off + 116, start);
    d[off + 120..off + 128].copy_from_slice(&size.to_le_bytes());
}

/// A container with one sector per stream (each at most 512 bytes).
fn build_cfb(streams: &[(&str, Vec<u8>)]) -> Vec<u8> {
    assert!(streams.len() <= 3);
    let n = streams.len();
    let mut d = vec![0u8; SECTOR * (3 + n)];
    d[0..8].copy_from_slice(&[0xD0, 0xCF, 0x11, 0xE0, 0xA1, 0xB1, 0x1A, 0xE1]);
    put_u16(&mut d, 24, 0x3E);
    put_u16(&mut d, 26, 3);
    put_u16(&mut d, 28, 0xFFFE);
    put_u16(&mut d, 30, 9);
    put_u16(&mut d, 32, 6);
    put_u32(&mut d, 44, 1);
    put_u32(&mut d, 48, 1);
    put_u32(&mut d, 56, 4096);
    put_u32(&mut d, 60, ENDOFCHAIN);
    put_u32(&mut d, 68, ENDOFCHAIN);
    put_u32(&mut d, 76, 0);
    for k in 1..109 {
        put_u32(&mut d, 76 + 4 * k, FREESECT);
    }
    let fat = SECTOR;
    for k in 0..SECTOR / 4 {
        put_u32(&mut d, fat + 4 * k, FREESECT);
    }
    put_u32(&mut d, fat, FATSECT);
    put_u32(&mut d, fat + 4, ENDOFCHAIN);
    let dir = 2 * SECTOR;
    put_entry(&mut d, dir, "Root Entry", 5, ENDOFCHAIN, 0);
    for (i, (name, bytes)) in streams.iter().enumerate() {
        assert!(bytes.len() <= SECTOR);
        let sector = 2 + i as u32;
        put_u32(&mut d, fat + 4 * sector as usize, ENDOFCHAIN);
        put_entry(&mut d, dir + 128 * (i + 1), name, 2, sector, bytes.len() as u64);
        let off = SECTOR * (sector as usize + 1);
        d[off..off + bytes.len()].copy_from_slice(bytes);
    }
    d
}

fn record_stream(records: &[&str]) -> Vec<u8> {
    let mut out = Vec::new();
    for r in records {
        out.extend_from_slice(&(r.len() as u32).to_le_bytes());
        out.extend_from_slice(r.as_bytes());
    }
    out
}

fn zlib(bytes: &[u8]) -> Vec<u8> {
    let mut e = ZlibEncoder::new(Vec::new(), Compression::default());
    e.write_all(bytes).unwrap();
    e.finish().unwrap()
}

#[test]
fn container_lists_streams_in_directory_order() {
    let data = build_cfb(&[("FileHeader", b"abc".to_vec()), ("Board", b"xyz!".to_vec())]);
    let cfb = CfbContainer::parse(&data).unwrap();
    assert_eq!(cfb.streams.len(), 2);
    assert_eq!(cfb.streams[0].0, "FileHeader");
    assert_eq!(cfb.streams[0].1, b"abc".to_vec());
    assert_eq!(cfb.streams[1].0, "Board");
    assert_eq!(cfb.get_stream("Board").unwrap(), b"xyz!".to_vec());
    assert_eq!(cfb.get_stream("Nope").unwrap_err(), AltiumImportError::StreamNotFound("Nope".to_string()));
}

#[test]
fn schdoc_is_read_from_file_header_stream() {
    let header = record_stream(&["|RECORD=31|TITLE=Sensor Node|REVISION=1.0|", "|RECORD=29|LOCATION.X=10|LOCATION.Y=20|"]);
    let sheet = import_schdoc_bytes(&build_cfb(&[("FileHeader", header.clone())])).unwrap();
    assert!(sheet.title_block.iter().any(|(k, v)| k == "title" && v == "Sensor Node"));
    assert_eq!(sheet.junctions.len(), 1);
    assert_eq!(sheet.junctions[0].position.x, 254_000);

    let compressed = import_schdoc_bytes(&build_cfb(&[("FileHeader", zlib(&header))])).unwrap();
    assert_eq!(compressed.junctions.len(), 1);
    assert_eq!(compressed.junctions[0].position.y, 508_000);

    let missing = import_schdoc_bytes(&build_cfb(&[("Other", header)])).unwrap_err();
    assert_eq!(missing, AltiumImportError::StreamNotFound("FileHeader".to_string()));
}

#[test]
fn pcblib_keeps_first_footprint_of_each_name() {
    let header = record_stream(&["|RECORD=Component|PATTERN=SOIC-8|DESCRIPTION=first|"]);
    let item = record_stream(&[
        "|RECORD=Component|PATTERN=SOIC-8|DESCRIPTION=again|",
        "|RECORD=Component|PATTERN=QFN-16|DESCRIPTION=quad|",
    ]);
    let library = record_stream(&["|RECORD=Component|PATTERN=SKIPPED|"]);
    let data = build_cfb(&[("FileHeader", header), ("SOIC", item), ("Library", library)]);
    let fps = import_pcblib_bytes(&data).unwrap();
    let names: Vec<&str> = fps.iter().map(|f| f.name.as_str()).collect();
    assert_eq!(names, vec!["SOIC-8", "QFN-16"]);
    assert_eq!(fps[0].description, "first");
}

#[test]
fn schlib_and_intlib_collect_symbols_and_footprints() {
    let sym = record_stream(&["|RECORD=1|LIBREFERENCE=OPAMP|COMMENT=NE5532|"]);
    let fp = record_stream(&["|RECORD=Component|PATTERN=DIP-8|"]);
    let syms = import_schlib_bytes(&build_cfb(&[("FileHeader", sym.clone()), ("OPAMP", sym.clone())])).unwrap();
    assert_eq!(syms.len(), 1);
    assert_eq!(syms[0].name, "OPAMP");
    let lib = import_intlib_bytes(&build_cfb(&[("Sym", sym), ("Fp", fp)])).unwrap();
    assert_eq!(lib.symbols.len(), 1);
    // A `RECORD=1` header also reads as an unnamed footprint component.
    let names: Vec<&str> = lib.footprints.iter().map(|f| f.name.as_str()).collect();
    assert_eq!(names, vec!["ALT_FP", "DIP-8"]);
}

#[test]
fn pcbdoc_reads_nets_tracks_and_components() {
    let board = record_stream(&["|NETNAME=GND|NETID=3|", "|NETNAME=VCC|", "|NETNAME=GND|NETID=9|"]);
    let tracks = record_stream(&["|X1=0|Y1=0|X2=100|Y2=0|WIDTH=10|NET=3|"]);
    let comps = record_stream(&["|SOURCECOMPONENTNAME=U1|PATTERN=SOIC-8|X=50|Y=60|ROTATION=90|", "|PATTERN=NONAME|"]);
    let data = build_cfb(&[("Board", board), ("Tracks", tracks), ("Components", comps)]);
    let b = import_pcbdoc_bytes(&data).unwrap();
    assert_eq!(b.layers.len(), 6);
    assert_eq!(b.layers[2].name, "Top Solder");
    assert_eq!(b.thickness, 1_600_000);
    assert_eq!(b.generator, "Oxide Altium Importer");
    let nets: Vec<(u32, &str)> = b.nets.iter().map(|n| (n.number, n.name.as_str())).collect();
    assert_eq!(nets, vec![(3, "GND"), (1, "VCC")]);
    assert_eq!(b.segments.len(), 1);
    assert_eq!(b.segments[0].end.x, 2_540_000);
    assert_eq!(b.segments[0].width, 254_000);
    assert_eq!(b.segments[0].layer, "Top Layer");
    assert_eq!(b.footprints.len(), 1);
    assert_eq!(b.footprints[0].reference, "U1");
    assert_eq!(b.footprints[0].rotation, 90_000);
    match import_altium_bytes("PcbDoc", &data) {
        Ok(AltiumImportResult::Pcb(p)) => assert_eq!(p.segments.len(), 1),
        _ => panic!("expected a board"),
    }
}
