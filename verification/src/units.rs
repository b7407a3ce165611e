//! The compilation-unit catalog: unit descriptors and their construction
//! from the info section's unit headers and root entries.

use vstd::prelude::*;

use crate::error::Error;
use crate::ranges::{range_wf, resolve_range, AddressRange};
use crate::raw;
use crate::section::{get_str, load_section, str_at, Image, SectionKind, SectionView};

verus! {

/// The entry tag that marks a unit's root as a compile unit.
pub const DW_TAG_COMPILE_UNIT: u16 = 0x11;

/// Attribute code of a unit's name.
pub const DW_AT_NAME: u16 = 0x03;

/// Attribute code of a unit's compile directory.
pub const DW_AT_COMP_DIR: u16 = 0x1b;

/// Attribute code of the line-program offset.
pub const DW_AT_STMT_LIST: u16 = 0x10;

/// Attribute code of the low program counter.
pub const DW_AT_LOW_PC: u16 = 0x11;

/// Attribute code of the high program counter.
pub const DW_AT_HIGH_PC: u16 = 0x12;

/// Attribute code of the ranges-section reference.
pub const DW_AT_RANGES: u16 = 0x55;

/// A root entry's attribute value, reduced to the forms the catalog reads:
/// a direct address, an unsigned constant, an offset into the string, line or
/// ranges section, any other form, or no attribute at all.
#[derive(Debug, Clone, Copy, PartialEq, Eq, Structural)]
pub enum AttrValue {
    Absent,
    Addr(u64),
    Udata(u64),
    StrRef(u64),
    LineRef(u64),
    RangesRef(u64),
    Other,
}

/// A unit header's plain fields.
#[derive(Debug, Clone, Copy, PartialEq, Eq, Structural)]
pub struct UnitInfo {
    /// Offset of the unit within the info section.
    pub offset: u64,
    /// DWARF version of the unit.
    pub version: u16,
    /// Size in bytes of an address on the target.
    pub address_size: u8,
}

/// One compilation unit's metadata: header fields, optional name and compile
/// directory copied out of the string section, optional low program counter
/// and line-program offset, and the resolved address range when one exists.
#[derive(Debug)]
pub struct UnitDescriptor {
    pub offset: u64,
    pub version: u16,
    pub address_size: u8,
    pub name: Option<Vec<u8>>,
    pub comp_dir: Option<Vec<u8>>,
    pub low_pc: Option<u64>,
    pub line_offset: Option<u64>,
    pub range: Option<AddressRange>,
}

/// A descriptor is well formed when its range, if any, has valid intervals,
/// rests on a known low program counter, and, when contiguous, starts at
/// that counter.
pub open spec fn wf_descriptor(u: UnitDescriptor) -> bool {
    match u.range {
        Some(rg) => range_wf(rg) && (match u.low_pc {
            Some(low) => (rg matches AddressRange::Contiguous { start, end } ==> start == low),
            None => false,
        }),
        None => true,
    }
}

/// An ordered collection of unit descriptors, in the order the units appear
/// in the info section.
pub struct Catalog {
    pub units: Vec<UnitDescriptor>,
}

/// Every descriptor of the catalog is well formed.
pub open spec fn wf_catalog(cat: Catalog) -> bool {
    forall|i: int| 0 <= i < cat.units@.len() ==> wf_descriptor(#[trigger] cat.units@[i])
}

/// What a unit's root entry reduces to: its tag, the absence of any root
/// entry, or a failure to decode the abbreviation table or the entry
/// itself.
#[derive(Debug, Clone, Copy, PartialEq, Eq, Structural)]
pub enum RootStatus {
    Tag(u16),
    NoRoot,
    Bad,
}

/// One unit of the info section, reduced to what the catalog reads: the
/// header fields, the root entry's status, and the root's values for the
/// six attributes the catalog resolves.
#[derive(Debug, Clone, Copy, PartialEq, Eq, Structural)]
pub struct UnitRec {
    pub info: UnitInfo,
    pub root: RootStatus,
    pub name_attr: AttrValue,
    pub comp_dir_attr: AttrValue,
    pub stmt_attr: AttrValue,
    pub low_attr: AttrValue,
    pub high_attr: AttrValue,
    pub ranges_attr: AttrValue,
}

/// One step of walking the info section's units: a unit's record, or a
/// failure that ends the walk.
#[derive(Debug, Clone, Copy, PartialEq, Eq, Structural)]
pub enum UnitStep {
    Unit(UnitRec),
    Bad,
}

/// A failure step can stand only at the very end of a walk.
pub open spec fn unit_steps_wf(s: Seq<UnitStep>) -> bool
    decreases s.len(),
{
    if s.len() == 0 {
        true
    } else if s[0] is Bad {
        s.len() == 1
    } else {
        unit_steps_wf(s.drop_first())
    }
}

/// Whether some unit of the walk lacks a root entry altogether.
pub open spec fn has_unit_without_root(s: Seq<UnitStep>) -> bool
    decreases s.len(),
{
    if s.len() == 0 {
        false
    } else {
        (match s[0] {
            UnitStep::Unit(rec) => rec.root is NoRoot,
            UnitStep::Bad => false,
        }) || has_unit_without_root(s.drop_first())
    }
}

/// The records of the walk whose root entry is tagged as a compile unit, in
/// walk order.
pub open spec fn compile_unit_recs(s: Seq<UnitStep>) -> Seq<UnitRec>
    decreases s.len(),
{
    if s.len() == 0 {
        Seq::<UnitRec>::empty()
    } else {
        match s[0] {
            UnitStep::Unit(rec) => if rec.root == RootStatus::Tag(DW_TAG_COMPILE_UNIT) {
                seq![rec] + compile_unit_recs(s.drop_first())
            } else {
                compile_unit_recs(s.drop_first())
            },
            UnitStep::Bad => compile_unit_recs(s.drop_first()),
        }
    }
}

/// The bytes a possibly absent section holds, an absent one holding none.
pub open spec fn bytes_of(o: Option<Vec<u8>>) -> Seq<u8> {
    match o {
        Some(v) => v@,
        None => Seq::<u8>::empty(),
    }
}

/// A possibly absent section as range resolution sees it: its bytes and the
/// endianness tag.
pub open spec fn section_model(o: Option<Vec<u8>>, little: bool) -> Option<(Seq<u8>, bool)> {
    match o {
        Some(v) => Some((v@, little)),
        None => None,
    }
}

/// Whether a descriptor's optional range is exactly what range resolution
/// makes of the entry's attributes, a resolution failure leaving no range.
pub open spec fn range_result_matches(
    res: Option<AddressRange>,
    ranges_attr: AttrValue,
    high_attr: AttrValue,
    ranges_sec: Option<(Seq<u8>, bool)>,
    address_size: u8,
    version: u16,
    low_pc: u64,
    base_address: u64,
) -> bool {
    match ranges_attr {
        AttrValue::RangesRef(off) => match ranges_sec {
            None => res is None,
            Some((bytes, little)) => {
                let steps = raw::range_steps_of(
                    bytes,
                    little,
                    off,
                    address_size,
                    version,
                    base_address,
                );
                if !raw::ranges_open_ok(bytes, little, off, address_size, version) {
                    res is None
                } else if crate::ranges::has_bad(steps) {
                    res is None
                } else {
                    res matches Some(AddressRange::Scattered(v)) && v@ == crate::ranges::items_of(
                        steps,
                    )
                }
            },
        },
        AttrValue::Absent => match high_attr {
            AttrValue::Addr(h) => if low_pc <= h {
                res == Some(AddressRange::Contiguous { start: low_pc, end: h })
            } else {
                res is None
            },
            AttrValue::Udata(o) => if o <= u64::MAX - low_pc {
                res matches Some(AddressRange::Contiguous { start, end }) && start == low_pc
                    && end == low_pc + o
            } else {
                res is None
            },
            _ => res is None,
        },
        _ => res is None,
    }
}

/// Whether one catalog descriptor is exactly what the catalog rules make of
/// one compile-unit record: header fields carried over; name and compile
/// directory read from the string section for indirect string references
/// and absent for every other form; the line-program offset only for a
/// direct line reference; the low program counter only for a direct
/// address; and the range as range resolution yields it, with the unit's
/// own low counter as base address, or no range at all without a low
/// counter.
pub open spec fn desc_matches_rec(
    d: UnitDescriptor,
    rec: UnitRec,
    str_bytes: Seq<u8>,
    ranges_sec: Option<(Seq<u8>, bool)>,
) -> bool {
    &&& d.offset == rec.info.offset
    &&& d.version == rec.info.version
    &&& d.address_size == rec.info.address_size
    &&& (match rec.name_attr {
        AttrValue::StrRef(off) => match d.name {
            Some(v) => str_at(str_bytes, off) == Some(v@),
            None => str_at(str_bytes, off) is None,
        },
        _ => d.name is None,
    })
    &&& (match rec.comp_dir_attr {
        AttrValue::StrRef(off) => match d.comp_dir {
            Some(v) => str_at(str_bytes, off) == Some(v@),
            None => str_at(str_bytes, off) is None,
        },
        _ => d.comp_dir is None,
    })
    &&& d.line_offset == (match rec.stmt_attr {
        AttrValue::LineRef(off) => Some(off),
        _ => None::<u64>,
    })
    &&& d.low_pc == (match rec.low_attr {
        AttrValue::Addr(a) => Some(a),
        _ => None::<u64>,
    })
    &&& (match d.low_pc {
        Some(low) => range_result_matches(
            d.range,
            rec.ranges_attr,
            rec.high_attr,
            ranges_sec,
            rec.info.address_size,
            rec.info.version,
            low,
            low,
        ),
        None => d.range is None,
    })
}

/// Resolves a name-like attribute: only an indirect reference into the
/// string section yields a value, read there as a NUL-terminated string; any
/// other form resolves to absent.
pub fn resolve_str_attr(attr: AttrValue, str_sec: &SectionView) -> (r: Option<Vec<u8>>)
    ensures
        match attr {
            AttrValue::StrRef(off) => match r {
                Some(v) => str_at(str_sec.bytes@, off) == Some(v@),
                None => str_at(str_sec.bytes@, off) is None,
            },
            _ => r is None,
        },
{
    match attr {
        AttrValue::StrRef(off) => get_str(str_sec, off),
        _ => None,
    }
}

/// Resolves the line-program attribute: only a direct offset into the line
/// section is recorded.
pub fn resolve_line_attr(attr: AttrValue) -> (r: Option<u64>)
    ensures
        r == (match attr {
            AttrValue::LineRef(off) => Some(off),
            _ => None::<u64>,
        }),
{
    match attr {
        AttrValue::LineRef(off) => Some(off),
        _ => None,
    }
}

/// Resolves the low program counter: only the direct-address form is
/// accepted.
pub fn resolve_low_pc(attr: AttrValue) -> (r: Option<u64>)
    ensures
        r == (match attr {
            AttrValue::Addr(a) => Some(a),
            _ => None::<u64>,
        }),
{
    match attr {
        AttrValue::Addr(a) => Some(a),
        _ => None,
    }
}

/// Streams the info section as a sequence of unit headers and builds one
/// descriptor, in walk order, from each unit whose root entry is tagged as
/// a compile unit: the catalog's content is pinned, descriptor by
/// descriptor, to the records the section bytes determine. Fails with
/// `MissingSection` exactly when a mandatory section (info, abbrev, str,
/// line) is absent, and with `FormatError` exactly when a unit lacks a root
/// entry altogether. A unit whose root entry cannot be decoded is skipped;
/// optional attributes in unexpected forms degrade to absent; a failed
/// range resolution leaves the unit without a range, the rest of the
/// catalog still loading.
#[verifier::loop_isolation(false)]
pub fn load_units(image: &Image) -> (r: Result<Catalog, Error>)
    ensures
        !image.mandatory_present() ==> (r matches Err(e) && e is MissingSection),
        image.mandatory_present() ==> ({
            let steps = raw::unit_steps_of(
                bytes_of(image.info),
                bytes_of(image.abbrev),
                image.little,
            );
            let kept = compile_unit_recs(steps);
            match r {
                Ok(cat) => {
                    &&& !has_unit_without_root(steps)
                    &&& wf_catalog(cat)
                    &&& cat.units@.len() == kept.len()
                    &&& forall|i: int|
                        0 <= i < kept.len() ==> desc_matches_rec(
                            #[trigger] cat.units@[i],
                            kept[i],
                            bytes_of(image.str_bytes),
                            section_model(image.ranges, image.little),
                        )
                },
                Err(e) => e is FormatError && has_unit_without_root(steps),
            }
        }),
{
    let info = load_section(image, SectionKind::Info)?;
    let abbrev = load_section(image, SectionKind::Abbrev)?;
    let str_sec = load_section(image, SectionKind::Str)?;
    // The line section is mandatory for the catalog even though line
    // programs are decoded on demand.
    let _line = load_section(image, SectionKind::Line)?;
    let ranges_sec: Option<SectionView> = match load_section(image, SectionKind::Ranges) {
        Ok(v) => Some(v),
        Err(_) => None,
    };
    let ghost steps0 = raw::unit_steps_of(info.bytes@, abbrev.bytes@, info.little);
    let ghost kept0 = compile_unit_recs(steps0);
    let ghost str_b = str_sec.bytes@;
    let ghost rmodel = section_model(image.ranges, image.little);
    proof {
        assert(bytes_of(image.info) == info.bytes@);
        assert(bytes_of(image.abbrev) == abbrev.bytes@);
        assert(bytes_of(image.str_bytes) == str_b);
        assert(rmodel == (match ranges_sec {
            Some(s) => Some((s.bytes@, s.little)),
            None => None::<(Seq<u8>, bool)>,
        }));
    }
    let mut units: Vec<UnitDescriptor> = Vec::new();
    let ghost mut kept_acc: Seq<UnitRec> = Seq::<UnitRec>::empty();
    let mut cursor = raw::unit_cursor(&info, &abbrev);
    let mut done: bool = false;
    while !done
        invariant
            unit_steps_wf(raw::unit_steps(cursor)),
            has_unit_without_root(steps0) == has_unit_without_root(raw::unit_steps(cursor)),
            kept0 =~= kept_acc + compile_unit_recs(raw::unit_steps(cursor)),
            units@.len() == kept_acc.len(),
            forall|i: int|
                0 <= i < kept_acc.len() ==> desc_matches_rec(
                    #[trigger] units@[i],
                    kept_acc[i],
                    str_b,
                    rmodel,
                ),
            forall|i: int| 0 <= i < units@.len() ==> wf_descriptor(#[trigger] units@[i]),
            done ==> raw::unit_steps(cursor).len() == 0,
        decreases raw::unit_steps(cursor).len() + (if done { 0nat } else { 1nat }),
    {
        let ghost s = raw::unit_steps(cursor);
        let unit = match raw::next_unit(&mut cursor) {
            Ok(Some(u)) => u,
            Ok(None) => {
                proof {
                    assert(s.len() == 0);
                }
                done = true;
                continue;
            },
            Err(_) => {
                // Header-stream corruption ends the iteration on the next
                // pass; the units gathered so far are kept.
                proof {
                    assert(s.len() > 0 && s[0] is Bad);
                }
                continue;
            },
        };
        let ghost rec = raw::unit_rec(unit);
        proof {
            assert(s.len() > 0 && s[0] == UnitStep::Unit(rec));
            assert(raw::unit_steps(cursor) == s.drop_first());
        }
        let hdr = raw::unit_info(&unit);
        let root = match raw::root_of(unit) {
            Ok(h) => h,
            Err(_) => {
                // A unit whose abbreviation table cannot be decoded is
                // skipped; the rest of the catalog still loads.
                proof {
                    assert(rec.root is Bad);
                }
                continue;
            },
        };
        let tag: u16 = match raw::root_tag(&root) {
            Ok(Some(t)) => t,
            Ok(None) => {
                // A unit without a root entry invalidates the whole catalog.
                proof {
                    assert(rec.root is NoRoot);
                    assert(has_unit_without_root(s));
                }
                return Err(Error::FormatError);
            },
            Err(_) => {
                // A root entry that cannot be decoded aborts this unit only.
                proof {
                    assert(rec.root is Bad);
                }
                continue;
            },
        };
        proof {
            assert(rec.root == RootStatus::Tag(tag));
        }
        if tag != DW_TAG_COMPILE_UNIT {
            continue;
        }
        let name_attr = match raw::root_attr(&root, DW_AT_NAME) {
            Ok(a) => a,
            Err(_) => {
                continue;
            },
        };
        let comp_dir_attr = match raw::root_attr(&root, DW_AT_COMP_DIR) {
            Ok(a) => a,
            Err(_) => {
                continue;
            },
        };
        let stmt_attr = match raw::root_attr(&root, DW_AT_STMT_LIST) {
            Ok(a) => a,
            Err(_) => {
                continue;
            },
        };
        let low_attr = match raw::root_attr(&root, DW_AT_LOW_PC) {
            Ok(a) => a,
            Err(_) => {
                continue;
            },
        };
        let high_attr = match raw::root_attr(&root, DW_AT_HIGH_PC) {
            Ok(a) => a,
            Err(_) => {
                continue;
            },
        };
        let ranges_attr = match raw::root_attr(&root, DW_AT_RANGES) {
            Ok(a) => a,
            Err(_) => {
                continue;
            },
        };
        proof {
            assert(name_attr == rec.name_attr);
            assert(comp_dir_attr == rec.comp_dir_attr);
            assert(stmt_attr == rec.stmt_attr);
            assert(low_attr == rec.low_attr);
            assert(high_attr == rec.high_attr);
            assert(ranges_attr == rec.ranges_attr);
            assert(hdr == rec.info);
        }
        let name = resolve_str_attr(name_attr, &str_sec);
        let comp_dir = resolve_str_attr(comp_dir_attr, &str_sec);
        let line_offset = resolve_line_attr(stmt_attr);
        let low_pc = resolve_low_pc(low_attr);
        let range: Option<AddressRange> = match low_pc {
            Some(low) => {
                match resolve_range(
                    ranges_attr,
                    high_attr,
                    ranges_sec.as_ref(),
                    hdr.address_size,
                    hdr.version,
                    low,
                    low,
                ) {
                    Ok(rg) => Some(rg),
                    Err(_) => None,
                }
            },
            None => None,
        };
        let desc = UnitDescriptor {
            offset: hdr.offset,
            version: hdr.version,
            address_size: hdr.address_size,
            name,
            comp_dir,
            low_pc,
            line_offset,
            range,
        };
        proof {
            assert(desc_matches_rec(desc, rec, str_b, rmodel));
            assert(compile_unit_recs(s) == seq![rec] + compile_unit_recs(s.drop_first()));
            assert(kept_acc + (seq![rec] + compile_unit_recs(s.drop_first())) =~= kept_acc.push(rec)
                + compile_unit_recs(s.drop_first()));
        }
        let ghost kept_old = kept_acc;
        let ghost units_old = units@;
        units.push(desc);
        proof {
            kept_acc = kept_acc.push(rec);
            assert(units@ == units_old.push(desc));
            assert(kept0 =~= kept_acc + compile_unit_recs(raw::unit_steps(cursor)));
            assert forall|i: int| 0 <= i < kept_acc.len() implies desc_matches_rec(
                #[trigger] units@[i],
                kept_acc[i],
                str_b,
                rmodel,
            ) by {
                if i < kept_old.len() {
                    assert(units@[i] == units_old[i]);
                    assert(kept_acc[i] == kept_old[i]);
                } else {
                    assert(units@[i] == desc && kept_acc[i] == rec);
                }
            }
        }
    }
    proof {
        assert(compile_unit_recs(raw::unit_steps(cursor)) =~= Seq::<UnitRec>::empty());
        assert(kept0 =~= kept_acc);
        assert(!has_unit_without_root(steps0));
        assert forall|i: int| 0 <= i < kept0.len() implies desc_matches_rec(
            #[trigger] units@[i],
            kept0[i],
            bytes_of(image.str_bytes),
            section_model(image.ranges, image.little),
        ) by {
            assert(kept0[i] == kept_acc[i]);
            assert(desc_matches_rec(units@[i], kept_acc[i], str_b, rmodel));
        }
    }
    Ok(Catalog { units })
}

} // verus!
