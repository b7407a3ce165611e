//! The trusted boundary to the `gimli` DWARF parser. Every item here either
//! holds a `gimli` value opaquely or wraps one `gimli` operation behind a
//! contract; nothing else in the crate touches `gimli`.

use gimli::AttributeValue;
use gimli::ColumnType;
use vstd::prelude::*;

use crate::error::Error;
use crate::lines::{row_steps_wf, RawRow, RowStep};
use crate::ranges::{range_steps_wf, Interval, RangeStep};
use crate::section::SectionView;
use crate::units::{unit_steps_wf, AttrValue, RootStatus, UnitInfo, UnitRec, UnitStep};

verus! {

/// An in-progress walk over the unit headers of an info section, carrying
/// the abbrev section that the units' root entries are decoded against.
#[verifier::external_body]
pub struct UnitCursor<'a> {
    it: Option<gimli::DebugInfoUnitHeadersIter<gimli::EndianSlice<'a, gimli::RunTimeEndian>>>,
    da: gimli::DebugAbbrev<gimli::EndianSlice<'a, gimli::RunTimeEndian>>,
}

/// One parsed unit header, carrying the abbrev section of its walk.
#[verifier::external_body]
pub struct UnitHandle<'a> {
    unit: gimli::UnitHeader<gimli::EndianSlice<'a, gimli::RunTimeEndian>>,
    da: gimli::DebugAbbrev<gimli::EndianSlice<'a, gimli::RunTimeEndian>>,
}

/// A unit header together with its decoded abbreviation table, enough to
/// read the unit's root entry.
#[verifier::external_body]
pub struct RootHandle<'a> {
    unit: gimli::UnitHeader<gimli::EndianSlice<'a, gimli::RunTimeEndian>>,
    abbrevs: gimli::Abbreviations,
}

/// An in-progress walk over one ranges-section list.
#[verifier::external_body]
pub struct RangeCursor<'a> {
    it: Option<gimli::RngListIter<gimli::EndianSlice<'a, gimli::RunTimeEndian>>>,
}

/// An in-progress replay of one line-number program.
#[verifier::external_body]
pub struct LineCursor<'a> {
    rows: Option<
        gimli::LineRows<
            gimli::EndianSlice<'a, gimli::RunTimeEndian>,
            gimli::IncompleteLineProgram<gimli::EndianSlice<'a, gimli::RunTimeEndian>>,
        >,
    >,
}

/// The intervals and final failure, if any, that walking the ranges list at
/// `offset` yields for the given section bytes, endianness, unit address
/// size, unit version and base address. Walking is a pure function of these.
pub uninterp spec fn range_steps_of(
    bytes: Seq<u8>,
    little: bool,
    offset: u64,
    address_size: u8,
    version: u16,
    base_address: u64,
) -> Seq<RangeStep>;

/// Whether a ranges-list walk can be opened at `offset` at all.
pub uninterp spec fn ranges_open_ok(
    bytes: Seq<u8>,
    little: bool,
    offset: u64,
    address_size: u8,
    version: u16,
) -> bool;

/// The steps a range cursor has left to yield.
pub uninterp spec fn range_steps(c: RangeCursor) -> Seq<RangeStep>;

/// The rows and final failure, if any, that replaying the line-number
/// program at `offset` yields for the given section bytes, endianness and
/// address size. Replaying is a pure function of these.
pub uninterp spec fn line_steps_of(
    bytes: Seq<u8>,
    little: bool,
    offset: u64,
    address_size: u8,
) -> Seq<RowStep>;

/// Whether a line-number program header parses at `offset` at all.
pub uninterp spec fn line_open_ok(
    bytes: Seq<u8>,
    little: bool,
    offset: u64,
    address_size: u8,
) -> bool;

/// The steps a line cursor has left to yield.
pub uninterp spec fn line_steps(c: LineCursor) -> Seq<RowStep>;

/// The records and final failure, if any, that walking the unit headers of
/// the info section yields, each record reduced against the abbrev section.
/// Walking is a pure function of the two sections' bytes and the
/// endianness.
pub uninterp spec fn unit_steps_of(info: Seq<u8>, abbrev: Seq<u8>, little: bool) -> Seq<UnitStep>;

/// The steps a unit cursor has left to yield.
pub uninterp spec fn unit_steps(c: UnitCursor) -> Seq<UnitStep>;

/// The record a yielded unit handle stands for.
pub uninterp spec fn unit_rec(u: UnitHandle) -> UnitRec;

/// The record a root handle stands for.
pub uninterp spec fn root_rec(h: RootHandle) -> UnitRec;

/// Relies on `gimli::DebugInfo::units`: begins the walk over the unit
/// headers stored in the info section, against the given abbrev section
/// (whose content is byte and variable-length-integer data, independent of
/// the endianness tag).
#[verifier::external_body]
pub fn unit_cursor<'a>(info: &'a SectionView, abbrev: &'a SectionView) -> (c: UnitCursor<'a>)
    ensures
        unit_steps(c) == unit_steps_of(info.bytes@, abbrev.bytes@, info.little),
        unit_steps_wf(unit_steps(c)),
{
    let e = if info.little { gimli::RunTimeEndian::Little } else { gimli::RunTimeEndian::Big };
    let di = gimli::DebugInfo::new(&info.bytes, e);
    UnitCursor { it: Some(di.units()), da: gimli::DebugAbbrev::new(&abbrev.bytes, e) }
}

/// Relies on `gimli::DebugInfoUnitHeadersIter::next`: yields the next unit
/// header, `None` at the end, or an error on a malformed header, after
/// which `gimli` ends the walk.
#[verifier::external_body]
pub fn next_unit<'a>(c: &mut UnitCursor<'a>) -> (r: Result<Option<UnitHandle<'a>>, Error>)
    ensures
        ({
            let s = unit_steps(*old(c));
            if s.len() == 0 {
                (r matches Ok(u) && u is None) && unit_steps(*final(c)) == s
            } else {
                unit_steps(*final(c)) == s.drop_first() && (match s[0] {
                    UnitStep::Unit(rec) => r matches Ok(u) && u matches Some(h) && unit_rec(h)
                        == rec,
                    UnitStep::Bad => r is Err,
                })
            }
        }),
{
    match c.it.as_mut().map(|i| i.next()) {
        None => Ok(None),
        Some(Ok(None)) => {
            c.it = None;
            Ok(None)
        },
        Some(Ok(Some(unit))) => Ok(Some(UnitHandle { unit, da: c.da })),
        Some(Err(_)) => {
            c.it = None;
            Err(Error::FormatError)
        },
    }
}

/// Relies on `gimli::UnitHeader::offset`, `version` and `address_size`: the
/// plain fields of a parsed unit header.
#[verifier::external_body]
pub fn unit_info(u: &UnitHandle<'_>) -> (r: UnitInfo)
    ensures
        r == unit_rec(*u).info,
{
    let offset = u.unit.offset().0 as u64;
    UnitInfo { offset, version: u.unit.version(), address_size: u.unit.address_size() }
}

/// Relies on `gimli::UnitHeader::abbreviations`: decodes the unit's
/// abbreviation table from the abbrev section at the offset the header
/// names; a table that cannot be decoded leaves the unit's root unreadable.
#[verifier::external_body]
pub fn root_of<'a>(u: UnitHandle<'a>) -> (r: Result<RootHandle<'a>, Error>)
    ensures
        r matches Ok(h) ==> root_rec(h) == unit_rec(u),
        r is Err ==> unit_rec(u).root is Bad,
{
    match u.unit.abbreviations(&u.da) {
        Ok(abbrevs) => Ok(RootHandle { unit: u.unit, abbrevs }),
        Err(_) => Err(Error::FormatError),
    }
}

/// Relies on `gimli::UnitHeader::entries`, `gimli::EntriesCursor::next_dfs`
/// and `gimli::DebuggingInformationEntry::tag`, composed because the cursor
/// borrows the handle and cannot be stored: reads the unit's root entry and
/// returns its tag, `None` when the unit has no entry at all, or an error
/// when the entry is malformed.
#[verifier::external_body]
pub fn root_tag(h: &RootHandle<'_>) -> (r: Result<Option<u16>, Error>)
    ensures
        (match root_rec(*h).root {
            RootStatus::Tag(t) => r == Ok::<Option<u16>, Error>(Some(t)),
            RootStatus::NoRoot => r == Ok::<Option<u16>, Error>(None),
            RootStatus::Bad => r is Err,
        }),
{
    let mut cur = h.unit.entries(&h.abbrevs);
    match cur.next_dfs() {
        Ok(Some(entry)) => Ok(Some(entry.tag().0)),
        Ok(None) => Ok(None),
        Err(_) => Err(Error::FormatError),
    }
}

/// Relies on the same root-entry walk and on
/// `gimli::DebuggingInformationEntry::attr_value`, which normalizes each
/// attribute by its DWARF class: reads one attribute of the root entry and
/// tells the value forms the catalog uses apart, every other form counting
/// as `Other`.
#[verifier::external_body]
pub fn root_attr(h: &RootHandle<'_>, at: u16) -> (r: Result<AttrValue, Error>)
    ensures
        (match root_rec(*h).root {
            RootStatus::Tag(_) => r matches Ok(v) && (at == crate::units::DW_AT_NAME ==> v
                == root_rec(*h).name_attr) && (at == crate::units::DW_AT_COMP_DIR ==> v
                == root_rec(*h).comp_dir_attr) && (at == crate::units::DW_AT_STMT_LIST ==> v
                == root_rec(*h).stmt_attr) && (at == crate::units::DW_AT_LOW_PC ==> v
                == root_rec(*h).low_attr) && (at == crate::units::DW_AT_HIGH_PC ==> v
                == root_rec(*h).high_attr) && (at == crate::units::DW_AT_RANGES ==> v
                == root_rec(*h).ranges_attr),
            _ => r is Err,
        }),
{
    let mut cur = h.unit.entries(&h.abbrevs);
    let entry = match cur.next_dfs() {
        Ok(Some(entry)) => entry,
        _ => return Err(Error::FormatError),
    };
    match entry.attr_value(gimli::DwAt(at)) {
        None => Ok(AttrValue::Absent),
        Some(AttributeValue::Addr(a)) => Ok(AttrValue::Addr(a)),
        Some(AttributeValue::Udata(x)) => Ok(AttrValue::Udata(x)),
        Some(AttributeValue::DebugStrRef(o)) => Ok(AttrValue::StrRef(o.0 as u64)),
        Some(AttributeValue::DebugLineRef(o)) => Ok(AttrValue::LineRef(o.0 as u64)),
        Some(AttributeValue::RangeListsRef(o)) => Ok(AttrValue::RangesRef(o.0 as u64)),
        Some(_) => Ok(AttrValue::Other),
    }
}

/// Relies on `gimli::RangeLists::ranges` over the ranges section (the
/// DWARF-4 list form the catalog reads): opens the walk over the list at
/// `offset`, relative to the given base address. `gimli` skips tombstone and
/// empty entries and yields only intervals with `begin < end`, adjusted by
/// the base address; a walk error ends the walk.
#[verifier::external_body]
pub fn range_cursor<'a>(
    ranges: &'a SectionView,
    offset: u64,
    address_size: u8,
    version: u16,
    base_address: u64,
) -> (r: Result<RangeCursor<'a>, Error>)
    ensures
        r matches Ok(c) ==> {
            &&& ranges_open_ok(ranges.bytes@, ranges.little, offset, address_size, version)
            &&& range_steps(c) == range_steps_of(
                ranges.bytes@,
                ranges.little,
                offset,
                address_size,
                version,
                base_address,
            )
            &&& range_steps_wf(range_steps(c))
            &&& forall|k: int|
                0 <= k < range_steps(c).len() ==> (#[trigger] range_steps(c)[k] matches
                RangeStep::Item(v) ==> v.start <= v.end)
        },
        r is Err ==> !ranges_open_ok(ranges.bytes@, ranges.little, offset, address_size, version),
{
    let e = if ranges.little { gimli::RunTimeEndian::Little } else { gimli::RunTimeEndian::Big };
    let dr = gimli::DebugRanges::new(&ranges.bytes, e);
    let rl = gimli::RangeLists::new(dr, gimli::DebugRngLists::new(&[], e));
    let enc = gimli::Encoding { format: gimli::Format::Dwarf32, version, address_size };
    let da = gimli::DebugAddr::from(gimli::EndianSlice::new(&[], e));
    let off = gimli::RangeListsOffset(offset as usize);
    match rl.ranges(off, enc, base_address, &da, gimli::DebugAddrBase(0)) {
        Ok(it) => Ok(RangeCursor { it: Some(it) }),
        Err(_) => Err(Error::FormatError),
    }
}

/// Relies on `gimli::RngListIter::next`: yields the next interval of the
/// list, `None` at its end, or an error on a malformed entry, after which
/// the walk is over.
#[verifier::external_body]
pub fn next_range(c: &mut RangeCursor<'_>) -> (r: Result<Option<Interval>, Error>)
    ensures
        ({
            let s = range_steps(*old(c));
            if s.len() == 0 {
                r == Ok::<Option<Interval>, Error>(None) && range_steps(*final(c)) == s
            } else {
                range_steps(*final(c)) == s.drop_first() && (match s[0] {
                    RangeStep::Item(v) => r == Ok::<Option<Interval>, Error>(Some(v)),
                    RangeStep::Bad => r is Err,
                })
            }
        }),
{
    match c.it.as_mut().map(|i| i.next()) {
        None => Ok(None),
        Some(Ok(None)) => {
            c.it = None;
            Ok(None)
        },
        Some(Ok(Some(rg))) => Ok(Some(Interval { start: rg.begin, end: rg.end })),
        Some(Err(_)) => {
            c.it = None;
            Err(Error::FormatError)
        },
    }
}

/// Relies on `gimli::DebugLine::program` and
/// `gimli::IncompleteLineProgram::rows` (the one-shot replay that owns its
/// program): parses the program header at `offset` and begins the replay of
/// its instructions. The compile directory and unit name only label file
/// paths, which the row model does not carry, so none are passed. An address
/// size other than 1, 2, 4 or 8 is refused before the call: the header
/// parser of a program older than DWARF 5 keeps the caller's address size
/// unchecked, and `gimli`'s address arithmetic assumes one of these widths.
#[verifier::external_body]
pub fn line_cursor<'a>(
    line: &'a SectionView,
    offset: u64,
    address_size: u8,
) -> (r: Result<LineCursor<'a>, Error>)
    ensures
        r matches Ok(c) ==> {
            &&& line_open_ok(line.bytes@, line.little, offset, address_size)
            &&& line_steps(c) == line_steps_of(line.bytes@, line.little, offset, address_size)
            &&& row_steps_wf(line_steps(c))
        },
        r is Err ==> !line_open_ok(line.bytes@, line.little, offset, address_size),
{
    if !matches!(address_size, 1 | 2 | 4 | 8) {
        return Err(Error::FormatError);
    }
    let e = if line.little { gimli::RunTimeEndian::Little } else { gimli::RunTimeEndian::Big };
    let dl = gimli::DebugLine::new(&line.bytes, e);
    match dl.program(gimli::DebugLineOffset(offset as usize), address_size, None, None) {
        Ok(program) => Ok(LineCursor { rows: Some(program.rows()) }),
        Err(_) => Err(Error::FormatError),
    }
}

/// Relies on `gimli::LineRows::next_row`: computes the next row of the line
/// table, `None` when the program is complete, or an error on a malformed
/// instruction, after which the replay is over. A row's line number and
/// column are flattened to plain integers, zero standing for an absent line
/// and for the left edge.
#[verifier::external_body]
pub fn next_line_row(c: &mut LineCursor<'_>) -> (r: Result<Option<RawRow>, Error>)
    ensures
        ({
            let s = line_steps(*old(c));
            if s.len() == 0 {
                r == Ok::<Option<RawRow>, Error>(None) && line_steps(*final(c)) == s
            } else {
                line_steps(*final(c)) == s.drop_first() && (match s[0] {
                    RowStep::Row(x) => r == Ok::<Option<RawRow>, Error>(Some(x)),
                    RowStep::Bad => r is Err,
                })
            }
        }),
{
    match c.rows.as_mut().map(|it| it.next_row()) {
        None => Ok(None),
        Some(Ok(None)) => { c.rows = None; Ok(None) },
        Some(Ok(Some((_, row)))) => Ok(Some(RawRow {
            address: row.address(),
            file: row.file_index(),
            line: row.line().map_or(0, |l| l.get()),
            column: match row.column() { ColumnType::LeftEdge => 0, ColumnType::Column(x) => x.get() },
            end_sequence: row.end_sequence(),
        })),
        Some(Err(_)) => { c.rows = None; Err(Error::FormatError) },
    }
}

} // verus!
