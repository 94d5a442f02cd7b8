use byteorder::{LittleEndian, WriteBytesExt};
use oxide_eda::altium::error::AltiumImportError;
use oxide_eda::altium::import::{import_altium_bytes, import_pcbdoc_bytes, import_schdoc_bytes};
use oxide_eda::altium::pcblib::{parse_footprints_from_records, PadKind};
use oxide_eda::altium::record::AltiumRecord;
use oxide_eda::altium::schdoc::{parse_schdoc_records, LabelType};
use oxide_eda::altium::schlib::{parse_symbols_from_records, PinDirection};
use oxide_eda::altium::stream::parse_record_stream;

fn mm(nm: i64) -> f64 {
    nm as f64 / 1e6
}

fn title<'a>(tb: &'a [(String, String)], key: &str) -> Option<&'a str> {
    tb.iter().find(|(k, _)| k == key).map(|(_, v)| v.as_str())
}

#[test]
fn test_altium_record_pipe_string_parsing() {
    let raw = "|RECORD=1|LIBREFERENCE=STM32F401CEU6|DESIGNATOR=U1|LOCATION.X=1000|LOCATION.Y=2000|ROTATION=90|MIRRORED=TRUE|";
    let rec = AltiumRecord::from_pipe_str(raw);

    assert_eq!(rec.get_i64("RECORD"), Some(1));
    assert_eq!(rec.get("LIBREFERENCE"), Some("STM32F401CEU6"));
    assert_eq!(rec.get("DESIGNATOR"), Some("U1"));
    assert_eq!(rec.get_coord_nm("LOCATION.X").map(mm), Some(25.4));
    assert_eq!(rec.get_coord_nm("LOCATION.Y").map(mm), Some(50.8));
    assert_eq!(rec.get_milli("ROTATION").map(|v| v as f64 / 1000.0), Some(90.0));
    assert!(rec.get_bool("MIRRORED"));
}

#[test]
fn test_length_prefixed_record_stream_parsing() {
    let r1 = "|RECORD=31|TITLE=Main Board|REVISION=A.1|";
    let r2 = "|RECORD=4|TEXT=SPI1_SCK|LOCATION.X=500|LOCATION.Y=600|";

    let mut stream_bytes = Vec::new();
    stream_bytes.write_u32::<LittleEndian>(r1.len() as u32).unwrap();
    stream_bytes.extend_from_slice(r1.as_bytes());

    stream_bytes.write_u32::<LittleEndian>(r2.len() as u32).unwrap();
    stream_bytes.extend_from_slice(r2.as_bytes());

    let records = parse_record_stream(&stream_bytes).expect("Should parse stream");
    assert_eq!(records.len(), 2);
    assert_eq!(records[0].get("TITLE"), Some("Main Board"));
    assert_eq!(records[1].get("TEXT"), Some("SPI1_SCK"));
}

#[test]
fn test_schdoc_record_conversion_to_schematic_sheet() {
    let records = vec![
        AltiumRecord::from_pipe_str("|RECORD=31|TITLE=Sensor Node|REVISION=1.0|DOCUMENTNUMBER=DOC-001|"),
        AltiumRecord::from_pipe_str("|RECORD=1|LIBREFERENCE=RES_0805|DESIGNATOR=R1|LOCATION.X=1000|LOCATION.Y=1500|ROTATION=0|"),
        AltiumRecord::from_pipe_str("|RECORD=34|OWNERINDEX=1|NAME=Comment|TEXT=10k|"),
        AltiumRecord::from_pipe_str("|RECORD=34|OWNERINDEX=1|NAME=Footprint|TEXT=RESC2012X60N|"),
        AltiumRecord::from_pipe_str("|RECORD=27|LOCATIONCOUNT=2|X1=1000|Y1=1500|X2=2000|Y2=1500|"),
        AltiumRecord::from_pipe_str("|RECORD=29|LOCATION.X=2000|LOCATION.Y=1500|"),
        AltiumRecord::from_pipe_str("|RECORD=4|TEXT=VCC_3V3|LOCATION.X=2000|LOCATION.Y=1500|"),
        AltiumRecord::from_pipe_str("|RECORD=17|TEXT=GND|LOCATION.X=1000|LOCATION.Y=1000|"),
        AltiumRecord::from_pipe_str("|RECORD=26|LOCATIONCOUNT=2|X1=500|Y1=500|X2=1500|Y2=500|"),
        AltiumRecord::from_pipe_str("|RECORD=25|LOCATION.X=500|LOCATION.Y=500|CORNER.X=600|CORNER.Y=600|"),
        AltiumRecord::from_pipe_str("|RECORD=14|SHEETNAME=PowerSupply|FILENAME=power.SchDoc|LOCATION.X=3000|LOCATION.Y=3000|XSIZE=4000|YSIZE=2000|"),
    ];

    let sheet = parse_schdoc_records(&records).expect("Failed to convert schematic records");

    // Title Block
    assert_eq!(title(&sheet.title_block, "title"), Some("Sensor Node"));
    assert_eq!(title(&sheet.title_block, "rev"), Some("1.0"));

    // Symbol instance
    assert_eq!(sheet.symbols.len(), 1);
    let sym = &sheet.symbols[0];
    assert_eq!(sym.lib_id, "RES_0805");
    assert_eq!(sym.reference, "R1");
    assert_eq!(sym.value, "10k");
    assert_eq!(sym.footprint, "RESC2012X60N");
    assert_eq!(mm(sym.position.x), 25.4);
    assert_eq!(mm(sym.position.y), 38.1);

    // Wires & Junctions
    assert_eq!(sheet.wires.len(), 1);
    assert_eq!(mm(sheet.wires[0].start.x), 25.4);
    assert_eq!(mm(sheet.wires[0].end.x), 50.8);
    assert_eq!(sheet.junctions.len(), 1);

    // Labels & Power Ports
    assert_eq!(sheet.labels.len(), 2);
    let net_label = &sheet.labels[0];
    assert_eq!(net_label.text, "VCC_3V3");
    assert_eq!(net_label.label_type, LabelType::Net);
    let pwr_port = &sheet.labels[1];
    assert_eq!(pwr_port.text, "GND");
    assert_eq!(pwr_port.label_type, LabelType::Power);

    // Bus & Bus Entry
    assert_eq!(sheet.buses.len(), 1);
    assert_eq!(sheet.bus_entries.len(), 1);

    // Child Sheet
    assert_eq!(sheet.child_sheets.len(), 1);
    assert_eq!(sheet.child_sheets[0].name, "PowerSupply");
    assert_eq!(sheet.child_sheets[0].filename, "power.SchDoc");
}

#[test]
fn test_schlib_record_conversion_to_lib_symbols() {
    let records = vec![
        AltiumRecord::from_pipe_str("|RECORD=1|LIBREFERENCE=OPAMP_DUAL|DESCRIPTION=Dual Low-Noise OpAmp|DESIGNATOR=U?|COMMENT=NE5532|"),
        AltiumRecord::from_pipe_str("|RECORD=2|DESIGNATOR=1|NAME=OUTA|ELECTRICAL=2|LOCATION.X=1000|LOCATION.Y=0|PINCONGLOMERATE=0|PINLENGTH=100|"),
        AltiumRecord::from_pipe_str("|RECORD=2|DESIGNATOR=2|NAME=INA-|ELECTRICAL=0|LOCATION.X=0|LOCATION.Y=500|PINCONGLOMERATE=2|PINLENGTH=100|"),
        AltiumRecord::from_pipe_str("|RECORD=2|DESIGNATOR=3|NAME=INA+|ELECTRICAL=0|LOCATION.X=0|LOCATION.Y=0|PINCONGLOMERATE=2|PINLENGTH=100|"),
        AltiumRecord::from_pipe_str("|RECORD=6|LOCATION.X=0|LOCATION.Y=0|CORNER.X=1000|CORNER.Y=1000|"),
    ];

    let symbols = parse_symbols_from_records(&records).expect("Failed to convert SchLib records");
    assert_eq!(symbols.len(), 1);

    let opamp = &symbols[0];
    assert_eq!(opamp.name, "OPAMP_DUAL");
    assert_eq!(opamp.description, "Dual Low-Noise OpAmp");
    assert_eq!(opamp.designator, "U?");
    assert_eq!(opamp.comment, "NE5532");
    assert_eq!(opamp.pins.len(), 3);

    // Pin 1 (Output)
    assert_eq!(opamp.pins[0].number, "1");
    assert_eq!(opamp.pins[0].name, "OUTA");
    assert_eq!(opamp.pins[0].electrical, PinDirection::Output);

    // Pin 2 (Input)
    assert_eq!(opamp.pins[1].number, "2");
    assert_eq!(opamp.pins[1].name, "INA-");
    assert_eq!(opamp.pins[1].electrical, PinDirection::Input);

    // Graphics
    assert_eq!(opamp.graphics.len(), 1);
}

#[test]
fn test_pcblib_record_conversion_to_footprints() {
    let records = vec![
        AltiumRecord::from_pipe_str("|RECORD=Component|PATTERN=SOIC-8|DESCRIPTION=Small Outline IC 8-Lead|"),
        AltiumRecord::from_pipe_str("|RECORD=Pad|NAME=1|X=0|Y=0|TOPXSIZE=100|TOPYSIZE=40|SHAPE=RoundedRectangle|HOLESIZE=0|"),
        AltiumRecord::from_pipe_str("|RECORD=Pad|NAME=2|X=0|Y=50|TOPXSIZE=100|TOPYSIZE=40|SHAPE=RoundedRectangle|HOLESIZE=0|"),
        AltiumRecord::from_pipe_str("|RECORD=Track|X1=0|Y1=0|X2=200|Y2=0|WIDTH=10|"),
    ];

    let footprints = parse_footprints_from_records(&records).expect("Failed to convert PcbLib records");
    assert_eq!(footprints.len(), 1);

    let fp = &footprints[0];
    assert_eq!(fp.name, "SOIC-8");
    assert_eq!(fp.description, "Small Outline IC 8-Lead");
    assert_eq!(fp.pads.len(), 2);
    assert_eq!(fp.pads[0].number, "1");
    assert_eq!(fp.pads[0].kind, PadKind::Smd);
    assert_eq!(fp.silk_f.len(), 1);
}

#[test]
fn decimal_coordinates_are_exact_in_nanometres() {
    let rec = AltiumRecord::from_pipe_str("|X=-12.5|Y=0.001|BAD=1e|MANY=00000000000000000000000001|");
    assert_eq!(rec.get_coord_nm("X"), Some(-317_500));
    assert_eq!(rec.get_coord_nm("Y"), Some(25));
    assert_eq!(rec.get_coord_nm("BAD"), None);
    assert_eq!(rec.get_coord_nm("MANY"), Some(25_400));
    assert_eq!(rec.get_coord_nm("MISSING"), None);
    assert!(!rec.get_bool("MISSING"));
}

#[test]
fn coordinates_accept_float_notation() {
    let rec = AltiumRecord::from_pipe_str(
        "|A=1e3|B=1E-3|C=0.00001|D=2.5e+2|E=1234567890123456789e-18|F=.5|G=5.|H=-0.0|I=-1.5e2|J=12345678901234567890123e-10|",
    );
    assert_eq!(rec.get_coord_nm("A"), Some(25_400_000));
    assert_eq!(rec.get_coord_nm("B"), Some(25));
    assert_eq!(rec.get_coord_nm("C"), Some(0));
    assert_eq!(rec.get_coord_nm("D"), Some(6_350_000));
    assert_eq!(rec.get_coord_nm("E"), Some(31_358));
    assert_eq!(rec.get_coord_nm("F"), Some(12_700));
    assert_eq!(rec.get_coord_nm("G"), Some(127_000));
    assert_eq!(rec.get_coord_nm("H"), Some(0));
    assert_eq!(rec.get_coord_nm("I"), Some(-3_810_000));
    assert_eq!(rec.get_coord_nm("J"), Some(31_358_024_409_135_802));
    assert_eq!(rec.get_milli("D"), Some(250_000));
    let odd = AltiumRecord::from_pipe_str(
        "|A=inf|B=nan|C=.|D=e5|E=1e+|F=1e99999999999999999999999999999999|G=1e-99999999999999999999999999999999|H=1.2.3|I=1e400|",
    );
    assert_eq!(odd.get_coord_nm("A"), None);
    assert_eq!(odd.get_coord_nm("B"), None);
    assert_eq!(odd.get_coord_nm("C"), None);
    assert_eq!(odd.get_coord_nm("D"), None);
    assert_eq!(odd.get_coord_nm("E"), None);
    assert_eq!(odd.get_coord_nm("F"), None);
    assert_eq!(odd.get_coord_nm("G"), Some(0));
    assert_eq!(odd.get_coord_nm("H"), None);
    assert_eq!(odd.get_coord_nm("I"), None);
}

#[test]
fn positive_numbers_by_their_text() {
    let rec = AltiumRecord::from_pipe_str(
        "|A=1e-3|B=0.00001|C=-5|D=0e5|E=inf|F=nan|G=+Infinity|H=-inf|I=0|J=abc|K=0.0000|",
    );
    assert!(rec.get_positive("A"));
    assert!(rec.get_positive("B"));
    assert!(!rec.get_positive("C"));
    assert!(!rec.get_positive("D"));
    assert!(rec.get_positive("E"));
    assert!(!rec.get_positive("F"));
    assert!(rec.get_positive("G"));
    assert!(!rec.get_positive("H"));
    assert!(!rec.get_positive("I"));
    assert!(!rec.get_positive("J"));
    assert!(!rec.get_positive("K"));
    assert!(!rec.get_positive("MISSING"));
}

#[test]
fn small_or_exponent_hole_sizes_make_through_hole_pads() {
    let records = vec![
        AltiumRecord::from_pipe_str("|RECORD=Component|PATTERN=TH|"),
        AltiumRecord::from_pipe_str("|RECORD=Pad|NAME=1|HOLESIZE=1e-3|"),
        AltiumRecord::from_pipe_str("|RECORD=Pad|NAME=2|HOLESIZE=0.00001|"),
        AltiumRecord::from_pipe_str("|RECORD=Pad|NAME=3|HOLESIZE=-5|"),
        AltiumRecord::from_pipe_str("|RECORD=Pad|NAME=4|HOLESIZE=3.5E1|"),
        AltiumRecord::from_pipe_str("|RECORD=Pad|NAME=5|HOLESIZE=12345678901234567890|"),
    ];
    let fps = parse_footprints_from_records(&records).unwrap();
    let pads = &fps[0].pads;
    assert_eq!(pads.len(), 5);
    assert_eq!(pads[0].kind, PadKind::Tht);
    assert_eq!(pads[0].drill, Some(25));
    assert!(pads[0].plated);
    assert_eq!(pads[0].layers, vec!["F.Cu", "B.Cu", "F.Mask", "B.Mask"]);
    assert_eq!(pads[1].kind, PadKind::Tht);
    assert_eq!(pads[1].drill, Some(0));
    assert_eq!(pads[2].kind, PadKind::Smd);
    assert_eq!(pads[2].drill, None);
    assert_eq!(pads[3].kind, PadKind::Tht);
    assert_eq!(pads[3].drill, Some(889_000));
    assert_eq!(pads[4].kind, PadKind::Tht);
}

#[test]
fn a_repeated_key_keeps_one_entry() {
    let rec = AltiumRecord::from_pipe_str("|x=1|X=2|y=3|");
    assert_eq!(rec.properties.len(), 2);
    assert_eq!(rec.get("X"), Some("2"));
    assert_eq!(rec.get("Y"), Some("3"));
}

#[test]
fn later_property_wins() {
    let rec = AltiumRecord::from_pipe_str("|NAME=a|NAME=b|");
    assert_eq!(rec.get("NAME"), Some("b"));
}

#[test]
fn non_container_bytes_are_refused() {
    assert_eq!(import_schdoc_bytes(b"not a compound file").unwrap_err(), AltiumImportError::InvalidCfbHeader);
    assert!(matches!(import_pcbdoc_bytes(&[0u8; 600]), Err(AltiumImportError::InvalidCfbHeader)));
}

#[test]
fn unknown_extension_is_unsupported() {
    match import_altium_bytes("DWG", &[]) {
        Err(AltiumImportError::UnsupportedFormat(m)) => {
            assert_eq!(m, "Unknown or unsupported Altium extension: .dwg")
        }
        _ => panic!("expected UnsupportedFormat"),
    }
    assert!(matches!(import_altium_bytes("SchDoc", &[1, 2, 3]), Err(AltiumImportError::InvalidCfbHeader)));
}

#[test]
fn import_error_messages() {
    assert_eq!(
        AltiumImportError::StreamNotFound("Board".to_string()).message(),
        "Stream 'Board' not found in Altium container"
    );
    assert_eq!(
        AltiumImportError::DecompressionFailed("A".to_string(), "bad".to_string()).message(),
        "Decompression failed for stream 'A': bad"
    );
    assert_eq!(
        AltiumImportError::InvalidCfbHeader.message(),
        "Invalid Compound File Binary (CFB) header or corrupted OLE structure"
    );
}

#[test]
fn records_compare_by_their_properties() {
    let a = AltiumRecord::from_pipe_str("|A=1|B=2|");
    let b = AltiumRecord::from_pipe_str("| b = 2 |a=1|");
    assert_eq!(a, b);
    assert_eq!(AltiumRecord::from_pipe_str("|A=1|A=3|"), AltiumRecord::from_pipe_str("|A=3|"));
    assert_ne!(AltiumRecord::from_pipe_str("|A=1|A=3|"), AltiumRecord::from_pipe_str("|A=1|"));
    assert_ne!(a, AltiumRecord::from_pipe_str("|A=1|"));
    assert_eq!(AltiumRecord::new(), AltiumRecord::default());
}

#[test]
fn library_symbols_are_created_and_updated_at_once() {
    let records = vec![
        AltiumRecord::from_pipe_str("|RECORD=1|LIBREFERENCE=A|"),
        AltiumRecord::from_pipe_str("|RECORD=2|DESIGNATOR=1|NAME=P|"),
        AltiumRecord::from_pipe_str("|RECORD=1|LIBREFERENCE=B|"),
    ];
    let symbols = parse_symbols_from_records(&records).unwrap();
    assert_eq!(symbols.len(), 2);
    for s in &symbols {
        assert_eq!(s.created, s.updated);
        assert_eq!((s.uuid >> 76) & 0xf, 7);
        assert_eq!((s.uuid >> 62) & 0x3, 2);
    }
    assert_ne!(symbols[0].uuid, symbols[1].uuid);
}

#[test]
fn stream_of_short_records_round_trips() {
    let texts = ["|A=1|", "|B=x|C=y|", "|NAME=Ω-net|", "|K= v |"];
    let mut data = Vec::new();
    for t in texts {
        data.write_u32::<LittleEndian>(t.len() as u32).unwrap();
        data.extend_from_slice(t.as_bytes());
    }
    let records = parse_record_stream(&data).unwrap();
    assert_eq!(records.len(), texts.len());
    for (r, t) in records.iter().zip(texts) {
        assert_eq!(*r, AltiumRecord::from_pipe_str(t));
    }
    assert_eq!(records[2].get("NAME"), Some("Ω-net"));
    assert_eq!(records[3].get("K"), Some("v"));
}

#[test]
fn unicode_white_space_is_trimmed() {
    let rec = AltiumRecord::from_pipe_str("|\u{3000}a\u{85}=\u{2028}v\u{A0}|B=\u{200B}x|");
    assert_eq!(rec.get("A"), Some("v"));
    assert_eq!(rec.get("B"), Some("\u{200B}x"));
}

#[test]
fn parsed_items_get_version_7_uuids() {
    let v7 = |u: u128| (u >> 76) & 0xf == 7 && (u >> 62) & 0x3 == 2;
    let fps = parse_footprints_from_records(&[
        AltiumRecord::from_pipe_str("|RECORD=Component|PATTERN=A|"),
        AltiumRecord::from_pipe_str("|RECORD=Component|PATTERN=B|"),
    ])
    .unwrap();
    assert!(fps.iter().all(|f| v7(f.uuid)));
    let sheet = parse_schdoc_records(&[
        AltiumRecord::from_pipe_str("|RECORD=1|LIBREFERENCE=R|"),
        AltiumRecord::from_pipe_str("|RECORD=27|LOCATIONCOUNT=3|X1=0|Y1=0|X2=10|Y2=0|X3=10|Y3=10|"),
        AltiumRecord::from_pipe_str("|RECORD=29|LOCATION.X=5|"),
        AltiumRecord::from_pipe_str("|RECORD=17|TEXT=VCC|"),
    ])
    .unwrap();
    assert!(v7(sheet.uuid));
    assert!(sheet.symbols.iter().all(|s| v7(s.uuid)));
    assert!(!sheet.wires.is_empty() && sheet.wires.iter().all(|w| v7(w.uuid)));
    assert!(sheet.junctions.iter().all(|j| v7(j.uuid)));
    assert!(sheet.labels.iter().all(|l| v7(l.uuid)));
}
