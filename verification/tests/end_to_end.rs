use dwarfline::facade::{find_unit_for_address, resolve_line};
use dwarfline::lines::{decode_lines, LineRow};
use dwarfline::ranges::{contains, AddressRange};
use dwarfline::section::{load_section, Image, SectionKind, SectionView};
use dwarfline::units::{load_units, UnitDescriptor};

fn abbrev_bytes() -> Vec<u8> {
    let mut v: Vec<u8> = vec![];
    // code 1: compile unit with name, comp_dir, stmt_list, low_pc, high_pc
    v.extend([0x01, 0x11, 0x00]);
    v.extend([0x03, 0x0e]);
    v.extend([0x1b, 0x0e]);
    v.extend([0x10, 0x17]);
    v.extend([0x11, 0x01]);
    v.extend([0x12, 0x0f]);
    v.extend([0x00, 0x00]);
    // code 2: compile unit with no high bound and no ranges reference
    v.extend([0x02, 0x11, 0x00]);
    v.extend([0x03, 0x0e]);
    v.extend([0x1b, 0x0e]);
    v.extend([0x10, 0x17]);
    v.extend([0x11, 0x01]);
    v.extend([0x00, 0x00]);
    // code 3: a partial unit, not a compile unit
    v.extend([0x03, 0x3c, 0x00]);
    v.extend([0x00, 0x00]);
    // code 4: compile unit with a ranges reference
    v.extend([0x04, 0x11, 0x00]);
    v.extend([0x03, 0x0e]);
    v.extend([0x1b, 0x0e]);
    v.extend([0x10, 0x17]);
    v.extend([0x11, 0x01]);
    v.extend([0x55, 0x17]);
    v.extend([0x00, 0x00]);
    v.push(0x00);
    v
}

fn unit4(die: &[u8]) -> Vec<u8> {
    let mut v: Vec<u8> = vec![];
    let len: usize = 2 + 4 + 1 + die.len();
    v.extend((len as u32).to_le_bytes());
    v.extend(4u16.to_le_bytes());
    v.extend(0u32.to_le_bytes());
    v.push(8);
    v.extend(die);
    v
}

fn die_full(low: u64) -> Vec<u8> {
    let mut d: Vec<u8> = vec![0x01];
    d.extend(0u32.to_le_bytes()); // name: "a.c"
    d.extend(4u32.to_le_bytes()); // comp_dir: "/src"
    d.extend(0u32.to_le_bytes()); // line program at offset 0
    d.extend(low.to_le_bytes());
    d.extend([0x80, 0x04]); // high_pc as unsigned offset 0x200
    d
}

fn die_no_high(low: u64) -> Vec<u8> {
    let mut d: Vec<u8> = vec![0x02];
    d.extend(0u32.to_le_bytes());
    d.extend(4u32.to_le_bytes());
    d.extend(0u32.to_le_bytes());
    d.extend(low.to_le_bytes());
    d
}

fn die_partial() -> Vec<u8> {
    vec![0x03]
}

fn die_with_ranges(low: u64) -> Vec<u8> {
    let mut d: Vec<u8> = vec![0x04];
    d.extend(0u32.to_le_bytes());
    d.extend(4u32.to_le_bytes());
    d.extend(0u32.to_le_bytes());
    d.extend(low.to_le_bytes());
    d.extend(0u32.to_le_bytes()); // ranges list at offset 0
    d
}

fn line_bytes() -> Vec<u8> {
    let mut prog: Vec<u8> = vec![];
    prog.extend([0x00, 0x09, 0x02]); // set address
    prog.extend(0x1000u64.to_le_bytes());
    prog.push(0x01); // copy: row at 0x1000, line 1
    prog.extend([0x02, 0x10]); // advance pc by 16
    prog.extend([0x03, 0x01]); // advance line by 1
    prog.push(0x01); // copy: row at 0x1010, line 2
    prog.extend([0x02, 0x10]); // advance pc by 16
    prog.extend([0x00, 0x01, 0x01]); // end of sequence at 0x1020
    line_program(&prog)
}

fn line_program(prog: &[u8]) -> Vec<u8> {
    let mut hdr_rest: Vec<u8> = vec![];
    hdr_rest.push(1); // minimum instruction length
    hdr_rest.push(1); // default is_stmt
    hdr_rest.push(0xfb); // line base -5
    hdr_rest.push(14); // line range
    hdr_rest.push(10); // opcode base
    hdr_rest.extend([0, 1, 1, 1, 1, 0, 0, 0, 1]);
    hdr_rest.push(0); // no include directories
    hdr_rest.extend(b"a.c\0");
    hdr_rest.extend([0x00, 0x00, 0x00]);
    hdr_rest.push(0); // end of file names

    let mut v: Vec<u8> = vec![];
    let unit_len: usize = 2 + 4 + hdr_rest.len() + prog.len();
    v.extend((unit_len as u32).to_le_bytes());
    v.extend(2u16.to_le_bytes());
    v.extend((hdr_rest.len() as u32).to_le_bytes());
    v.extend(&hdr_rest);
    v.extend(prog);
    v
}

fn ranges_bytes() -> Vec<u8> {
    let mut v: Vec<u8> = vec![];
    v.extend(0x100u64.to_le_bytes());
    v.extend(0x200u64.to_le_bytes());
    v.extend(0x300u64.to_le_bytes());
    v.extend(0x400u64.to_le_bytes());
    v.extend(0u64.to_le_bytes());
    v.extend(0u64.to_le_bytes());
    v
}

fn test_image() -> Image {
    let mut info: Vec<u8> = vec![];
    info.extend(unit4(&die_full(0x1000)));
    info.extend(unit4(&die_no_high(0x2000)));
    info.extend(unit4(&die_partial()));
    info.extend(unit4(&die_with_ranges(0x4000)));
    Image {
        little: true,
        info: Some(info),
        abbrev: Some(abbrev_bytes()),
        str_bytes: Some(b"a.c\0/src\0".to_vec()),
        line: Some(line_bytes()),
        ranges: Some(ranges_bytes()),
    }
}

#[test]
fn catalog_keeps_compile_units_in_order() {
    let cat = load_units(&test_image()).unwrap();
    assert_eq!(cat.units.len(), 3);
    assert_eq!(cat.units[0].name, Some(b"a.c".to_vec()));
    assert_eq!(cat.units[0].comp_dir, Some(b"/src".to_vec()));
    assert_eq!(cat.units[0].low_pc, Some(0x1000));
    assert_eq!(cat.units[0].line_offset, Some(0));
    assert_eq!(cat.units[0].version, 4);
    assert_eq!(cat.units[0].address_size, 8);
    assert_eq!(cat.units[1].low_pc, Some(0x2000));
    assert_eq!(cat.units[2].low_pc, Some(0x4000));
}

#[test]
fn offset_high_bound_resolves_the_advertised_range() {
    let cat = load_units(&test_image()).unwrap();
    match &cat.units[0].range {
        Some(AddressRange::Contiguous { start, end }) => {
            assert_eq!(*start, 0x1000);
            assert_eq!(*end, 0x1200);
        }
        other => panic!("expected a contiguous range, got {:?}", other),
    }
    assert_eq!(find_unit_for_address(&cat, 0x1180), Some(0));
    assert_eq!(find_unit_for_address(&cat, 0x2000), None);
}

#[test]
fn unit_without_end_bound_degrades_but_catalog_loads() {
    let cat = load_units(&test_image()).unwrap();
    assert!(cat.units[1].range.is_none());
    assert_eq!(cat.units[1].name, Some(b"a.c".to_vec()));
}

#[test]
fn ranges_section_yields_base_adjusted_intervals() {
    let cat = load_units(&test_image()).unwrap();
    match &cat.units[2].range {
        Some(AddressRange::Scattered(v)) => {
            assert_eq!(v.len(), 2);
            assert_eq!((v[0].start, v[0].end), (0x4100, 0x4200));
            assert_eq!((v[1].start, v[1].end), (0x4300, 0x4400));
        }
        other => panic!("expected a scattered range, got {:?}", other),
    }
    let rg = cat.units[2].range.as_ref().unwrap();
    assert!(contains(rg, 0x4150));
    assert!(!contains(rg, 0x4250));
    assert_eq!(find_unit_for_address(&cat, 0x4350), Some(2));
}

#[test]
fn missing_mandatory_section_aborts_the_catalog() {
    let mut image = test_image();
    image.abbrev = None;
    match load_units(&image) {
        Err(e) => assert!(e.is_missing_section()),
        Ok(_) => panic!("a catalog must not load without its abbreviation section"),
    }
}

#[test]
fn decoded_rows_replay_the_program() {
    let image = test_image();
    let line = load_section(&image, SectionKind::Line).unwrap();
    let table = decode_lines(&line, 0, 8);
    assert_eq!(table.len(), 1);
    assert_eq!(
        table[0],
        vec![
            LineRow { address: 0x1000, file: 1, line: 1, column: 0 },
            LineRow { address: 0x1010, file: 1, line: 2, column: 0 },
        ]
    );
}

#[test]
fn end_of_sequence_marker_is_not_a_row() {
    let image = test_image();
    let line = load_section(&image, SectionKind::Line).unwrap();
    let table = decode_lines(&line, 0, 8);
    for seq in &table {
        for row in seq {
            assert_ne!(row.address, 0x1020);
        }
    }
}

#[test]
fn rows_are_non_decreasing_within_a_sequence() {
    let image = test_image();
    let line = load_section(&image, SectionKind::Line).unwrap();
    let table = decode_lines(&line, 0, 8);
    for seq in &table {
        for w in seq.windows(2) {
            assert!(w[0].address <= w[1].address);
        }
    }
}

#[test]
fn decoding_twice_gives_identical_tables() {
    let image = test_image();
    let line = load_section(&image, SectionKind::Line).unwrap();
    let first = decode_lines(&line, 0, 8);
    let second = decode_lines(&line, 0, 8);
    assert_eq!(first, second);
}

#[test]
fn decoding_at_a_bad_offset_yields_nothing() {
    let image = test_image();
    let line = load_section(&image, SectionKind::Line).unwrap();
    let table = decode_lines(&line, 0xffff, 8);
    assert!(table.is_empty());
}

#[test]
fn resolve_line_picks_the_greatest_row_at_or_below() {
    let image = test_image();
    let cat = load_units(&image).unwrap();
    let line = load_section(&image, SectionKind::Line).unwrap();
    let unit = &cat.units[0];
    let at_first = resolve_line(&line, unit, 0x1000).unwrap();
    assert_eq!((at_first.address, at_first.line), (0x1000, 1));
    let between = resolve_line(&line, unit, 0x1008).unwrap();
    assert_eq!((between.address, between.line), (0x1000, 1));
    let at_second = resolve_line(&line, unit, 0x1015).unwrap();
    assert_eq!((at_second.address, at_second.line), (0x1010, 2));
    let beyond = resolve_line(&line, unit, 0xffff_ffff).unwrap();
    assert_eq!(beyond.address, 0x1010);
}

#[test]
fn resolve_line_before_every_row_is_nothing() {
    let image = test_image();
    let cat = load_units(&image).unwrap();
    let line = load_section(&image, SectionKind::Line).unwrap();
    assert!(resolve_line(&line, &cat.units[0], 0xfff).is_none());
}

#[test]
fn resolve_line_without_a_line_program_is_nothing() {
    let image = test_image();
    let line = load_section(&image, SectionKind::Line).unwrap();
    let unit = UnitDescriptor {
        offset: 0,
        version: 4,
        address_size: 8,
        name: None,
        comp_dir: None,
        low_pc: Some(0x1000),
        line_offset: None,
        range: None,
    };
    assert!(resolve_line(&line, &unit, 0x1000).is_none());
}

#[test]
fn section_view_keeps_the_endianness_tag() {
    let image = test_image();
    let info = load_section(&image, SectionKind::Info).unwrap();
    assert!(info.little);
    assert_eq!(info.kind, SectionKind::Info);
}

#[test]
fn corrupt_program_tail_keeps_decoded_rows() {
    let mut prog: Vec<u8> = vec![];
    prog.extend([0x00, 0x09, 0x02]);
    prog.extend(0x1000u64.to_le_bytes());
    prog.push(0x01); // copy: row at 0x1000, line 1
    prog.push(0x00); // an extended opcode cut off mid-instruction
    let line = SectionView { kind: SectionKind::Line, little: true, bytes: line_program(&prog) };
    let table = decode_lines(&line, 0, 8);
    assert_eq!(table.len(), 1);
    assert_eq!(table[0], vec![LineRow { address: 0x1000, file: 1, line: 1, column: 0 }]);
}

#[test]
fn unsupported_address_size_yields_nothing() {
    let image = test_image();
    let line = load_section(&image, SectionKind::Line).unwrap();
    assert!(decode_lines(&line, 0, 0).is_empty());
    assert!(decode_lines(&line, 0, 3).is_empty());
    assert!(decode_lines(&line, 0, 16).is_empty());
}

#[test]
fn loading_twice_gives_the_same_catalog() {
    let a = load_units(&test_image()).unwrap();
    let b = load_units(&test_image()).unwrap();
    assert_eq!(a.units.len(), b.units.len());
    for (x, y) in a.units.iter().zip(b.units.iter()) {
        assert_eq!(x.offset, y.offset);
        assert_eq!(x.version, y.version);
        assert_eq!(x.address_size, y.address_size);
        assert_eq!(x.name, y.name);
        assert_eq!(x.comp_dir, y.comp_dir);
        assert_eq!(x.low_pc, y.low_pc);
        assert_eq!(x.line_offset, y.line_offset);
    }
}
