use dwarfline::error::Error;
use dwarfline::facade::find_unit_for_address;
use dwarfline::ranges::{contains, resolve_range, AddressRange, Interval};
use dwarfline::section::{load_section, section_name, Image, SectionKind, SectionView};
use dwarfline::units::{AttrValue, Catalog, UnitDescriptor};

fn unit_with_range(range: Option<AddressRange>) -> UnitDescriptor {
    UnitDescriptor {
        offset: 0,
        version: 4,
        address_size: 8,
        name: None,
        comp_dir: None,
        low_pc: Some(0x1000),
        line_offset: None,
        range,
    }
}

#[test]
fn absolute_high_bound_gives_low_to_high() {
    let r = resolve_range(AttrValue::Absent, AttrValue::Addr(0x2000), None, 8, 4, 0x1000, 0x1000);
    match r {
        Ok(AddressRange::Contiguous { start, end }) => {
            assert_eq!(start, 0x1000);
            assert_eq!(end, 0x2000);
            assert!(start < end);
        }
        other => panic!("expected a contiguous range, got {:?}", other),
    }
}

#[test]
fn offset_high_bound_adds_to_low() {
    let r = resolve_range(AttrValue::Absent, AttrValue::Udata(0x200), None, 8, 4, 0x1000, 0x1000);
    match r {
        Ok(AddressRange::Contiguous { start, end }) => {
            assert_eq!(start, 0x1000);
            assert_eq!(end, 0x1200);
        }
        other => panic!("expected a contiguous range, got {:?}", other),
    }
}

#[test]
fn missing_high_bound_is_a_descriptive_error() {
    let r = resolve_range(AttrValue::Absent, AttrValue::Absent, None, 8, 4, 0x1000, 0x1000);
    match r {
        Err(Error::Message(m)) => assert_eq!(m, "no end bound for address range"),
        other => panic!("expected the no-end-bound message, got {:?}", other),
    }
}

#[test]
fn unexpected_high_bound_form_is_rejected() {
    let r = resolve_range(AttrValue::Absent, AttrValue::Other, None, 8, 4, 0x1000, 0x1000);
    match r {
        Err(Error::Message(m)) => assert_eq!(m, "invalid attribute value for ranges"),
        other => panic!("expected the invalid-attribute message, got {:?}", other),
    }
}

#[test]
fn unexpected_ranges_form_is_rejected() {
    let r = resolve_range(AttrValue::Udata(3), AttrValue::Addr(0x2000), None, 8, 4, 0x1000, 0x1000);
    match r {
        Err(Error::Message(m)) => assert_eq!(m, "invalid attribute value for ranges"),
        other => panic!("expected the invalid-attribute message, got {:?}", other),
    }
}

#[test]
fn high_bound_below_low_pc_is_malformed() {
    let r = resolve_range(AttrValue::Absent, AttrValue::Addr(0x800), None, 8, 4, 0x1000, 0x1000);
    assert!(matches!(r, Err(Error::FormatError)));
}

#[test]
fn overflowing_offset_is_malformed() {
    let r = resolve_range(AttrValue::Absent, AttrValue::Udata(u64::MAX), None, 8, 4, 2, 2);
    assert!(matches!(r, Err(Error::FormatError)));
}

#[test]
fn ranges_reference_without_section_is_missing_section() {
    let r = resolve_range(AttrValue::RangesRef(0), AttrValue::Absent, None, 8, 4, 0x1000, 0x1000);
    assert!(matches!(r, Err(Error::MissingSection)));
}

#[test]
fn contiguous_containment_is_half_open() {
    let rg = AddressRange::Contiguous { start: 0x1000, end: 0x1200 };
    assert!(contains(&rg, 0x1000));
    assert!(contains(&rg, 0x1180));
    assert!(!contains(&rg, 0x1200));
    assert!(!contains(&rg, 0xfff));
}

#[test]
fn scattered_containment_checks_each_interval() {
    let rg = AddressRange::Scattered(vec![
        Interval { start: 0x100, end: 0x200 },
        Interval { start: 0x400, end: 0x500 },
    ]);
    assert!(contains(&rg, 0x100));
    assert!(contains(&rg, 0x450));
    assert!(!contains(&rg, 0x300));
    assert!(!contains(&rg, 0x500));
}

#[test]
fn find_unit_returns_first_containing_unit() {
    let cat = Catalog {
        units: vec![
            unit_with_range(None),
            unit_with_range(Some(AddressRange::Contiguous { start: 0x1000, end: 0x1200 })),
            unit_with_range(Some(AddressRange::Contiguous { start: 0x2000, end: 0x3000 })),
        ],
    };
    assert_eq!(find_unit_for_address(&cat, 0x1180), Some(1));
    assert_eq!(find_unit_for_address(&cat, 0x2500), Some(2));
    assert_eq!(find_unit_for_address(&cat, 0x4000), None);
    assert_eq!(find_unit_for_address(&cat, 0x1200), None);
}

#[test]
fn section_names_follow_the_dwarf_convention() {
    assert_eq!(section_name(SectionKind::Info), ".debug_info");
    assert_eq!(section_name(SectionKind::Abbrev), ".debug_abbrev");
    assert_eq!(section_name(SectionKind::Str), ".debug_str");
    assert_eq!(section_name(SectionKind::Line), ".debug_line");
    assert_eq!(section_name(SectionKind::Ranges), ".debug_ranges");
}

#[test]
fn load_section_tags_bytes_and_reports_absence() {
    let image = Image {
        little: true,
        info: Some(vec![1, 2, 3]),
        abbrev: None,
        str_bytes: None,
        line: None,
        ranges: None,
    };
    let v = load_section(&image, SectionKind::Info).unwrap();
    assert_eq!(v.bytes, vec![1, 2, 3]);
    assert!(v.little);
    let missing = load_section(&image, SectionKind::Abbrev);
    match missing {
        Err(e) => assert!(e.is_missing_section()),
        Ok(_) => panic!("an absent section must not load"),
    }
}

#[test]
fn get_str_reads_until_the_terminator() {
    let sec = SectionView { kind: SectionKind::Str, little: true, bytes: b"a.c\0/src\0".to_vec() };
    assert_eq!(dwarfline::section::get_str(&sec, 0), Some(b"a.c".to_vec()));
    assert_eq!(dwarfline::section::get_str(&sec, 4), Some(b"/src".to_vec()));
    assert_eq!(dwarfline::section::get_str(&sec, 9), None);
    let unterminated =
        SectionView { kind: SectionKind::Str, little: true, bytes: b"abc".to_vec() };
    assert_eq!(dwarfline::section::get_str(&unterminated, 0), None);
}

#[test]
fn truncated_ranges_list_is_malformed() {
    let sec = SectionView { kind: SectionKind::Ranges, little: true, bytes: vec![1, 2, 3, 4] };
    let r = resolve_range(
        AttrValue::RangesRef(0),
        AttrValue::Absent,
        Some(&sec),
        8,
        4,
        0x1000,
        0x1000,
    );
    assert!(matches!(r, Err(Error::FormatError)));
}

#[test]
fn ranges_offset_past_the_section_is_malformed() {
    let sec = SectionView { kind: SectionKind::Ranges, little: true, bytes: vec![0; 16] };
    let r = resolve_range(
        AttrValue::RangesRef(0x100),
        AttrValue::Absent,
        Some(&sec),
        8,
        4,
        0x1000,
        0x1000,
    );
    assert!(matches!(r, Err(Error::FormatError)));
}
