//! Address-range resolution: normalizing a unit's high-bound attribute or its
//! ranges-section indirection into one address-range abstraction.

use vstd::prelude::*;
use vstd::string::StringExecFns;

use crate::error::Error;
use crate::raw;
use crate::section::SectionView;
use crate::units::AttrValue;

verus! {

/// One `[start, end)` interval of addresses.
#[derive(Debug, Clone, Copy, PartialEq, Eq, Structural)]
pub struct Interval {
    pub start: u64,
    pub end: u64,
}

/// One step of walking a ranges-section list: either an interval, or a
/// decoding failure that ends the walk.
#[derive(Debug, Clone, Copy, PartialEq, Eq, Structural)]
pub enum RangeStep {
    Item(Interval),
    Bad,
}

/// The addresses a unit's code occupies: one contiguous `[start, end)`
/// interval, or a set of intervals decoded from the ranges section.
#[derive(Debug, Clone, PartialEq)]
pub enum AddressRange {
    Contiguous { start: u64, end: u64 },
    Scattered(Vec<Interval>),
}

/// Every interval of the range respects `start <= end`.
pub open spec fn range_wf(r: AddressRange) -> bool {
    match r {
        AddressRange::Contiguous { start, end } => start <= end,
        AddressRange::Scattered(v) => forall|i: int|
            0 <= i < v@.len() ==> #[trigger] v@[i].start <= v@[i].end,
    }
}

/// Whether an address falls inside one interval.
pub open spec fn interval_contains(iv: Interval, addr: u64) -> bool {
    iv.start <= addr && addr < iv.end
}

/// Whether an address falls inside the range.
pub open spec fn range_contains(r: AddressRange, addr: u64) -> bool {
    match r {
        AddressRange::Contiguous { start, end } => start <= addr && addr < end,
        AddressRange::Scattered(v) => exists|i: int|
            0 <= i < v@.len() && interval_contains(#[trigger] v@[i], addr),
    }
}

/// A failure step can stand only at the very end of a walk.
pub open spec fn range_steps_wf(s: Seq<RangeStep>) -> bool
    decreases s.len(),
{
    if s.len() == 0 {
        true
    } else if s[0] is Bad {
        s.len() == 1
    } else {
        range_steps_wf(s.drop_first())
    }
}

/// Whether a walk ends in a decoding failure.
pub open spec fn has_bad(s: Seq<RangeStep>) -> bool
    decreases s.len(),
{
    if s.len() == 0 {
        false
    } else {
        s[0] is Bad || has_bad(s.drop_first())
    }
}

/// The intervals a walk yields, in order.
pub open spec fn items_of(s: Seq<RangeStep>) -> Seq<Interval>
    decreases s.len(),
{
    if s.len() == 0 {
        Seq::<Interval>::empty()
    } else {
        match s[0] {
            RangeStep::Item(v) => seq![v] + items_of(s.drop_first()),
            RangeStep::Bad => items_of(s.drop_first()),
        }
    }
}

/// Whether an address falls inside the range, executably.
#[verifier::loop_isolation(false)]
pub fn contains(r: &AddressRange, addr: u64) -> (b: bool)
    ensures
        b == range_contains(*r, addr),
{
    match r {
        AddressRange::Contiguous { start, end } => *start <= addr && addr < *end,
        AddressRange::Scattered(v) => {
            let mut i: usize = 0;
            while i < v.len()
                invariant
                    i <= v.len(),
                    forall|k: int| 0 <= k < i ==> !interval_contains(#[trigger] v@[k], addr),
                decreases v.len() - i,
            {
                if v[i].start <= addr && addr < v[i].end {
                    proof {
                        let w: int = i as int;
                        assert(0 <= w < v@.len() && interval_contains(v@[w], addr));
                        assert(*r == AddressRange::Scattered(*v));
                        assert(range_contains(*r, addr));
                    }
                    return true;
                }
                i = i + 1;
            }
            false
        },
    }
}

/// Determines the address range of a compile-unit entry, preferring the
/// ranges-section indirection and falling back to the high-program-counter
/// attribute: an absolute high bound yields `[low_pc, high)`, an unsigned
/// offset yields `[low_pc, low_pc + offset)`. Fails with a descriptive
/// message when neither form is usable, with `MissingSection` when a ranges
/// reference exists but the image has no ranges section, and with
/// `FormatError` when the metadata is malformed (an out-of-range list offset,
/// a high bound below `low_pc`, or an offset that overflows the address
/// space).
#[verifier::loop_isolation(false)]
pub fn resolve_range(
    ranges_attr: AttrValue,
    high_attr: AttrValue,
    ranges_sec: Option<&SectionView>,
    address_size: u8,
    version: u16,
    low_pc: u64,
    base_address: u64,
) -> (r: Result<AddressRange, Error>)
    ensures
        ranges_attr matches AttrValue::RangesRef(off) ==> (match ranges_sec {
            None => r == Err::<AddressRange, Error>(Error::MissingSection),
            Some(sec) => {
                let steps = raw::range_steps_of(
                    sec.bytes@,
                    sec.little,
                    off,
                    address_size,
                    version,
                    base_address,
                );
                if !raw::ranges_open_ok(sec.bytes@, sec.little, off, address_size, version) {
                    r == Err::<AddressRange, Error>(Error::FormatError)
                } else if has_bad(steps) {
                    r == Err::<AddressRange, Error>(Error::FormatError)
                } else {
                    r matches Ok(AddressRange::Scattered(v)) && v@ == items_of(steps)
                }
            },
        }),
        ranges_attr is Absent ==> (match high_attr {
            AttrValue::Addr(h) => if low_pc <= h {
                r == Ok::<AddressRange, Error>(AddressRange::Contiguous { start: low_pc, end: h })
            } else {
                r == Err::<AddressRange, Error>(Error::FormatError)
            },
            AttrValue::Udata(o) => if o <= u64::MAX - low_pc {
                r == Ok::<AddressRange, Error>(
                    AddressRange::Contiguous { start: low_pc, end: (low_pc + o) as u64 },
                )
            } else {
                r == Err::<AddressRange, Error>(Error::FormatError)
            },
            AttrValue::Absent => r matches Err(Error::Message(m)) && m@
                == "no end bound for address range"@,
            _ => r matches Err(Error::Message(m)) && m@ == "invalid attribute value for ranges"@,
        }),
        !(ranges_attr is Absent) && !(ranges_attr is RangesRef) ==> (r matches Err(
            Error::Message(m),
        ) && m@ == "invalid attribute value for ranges"@),
        r matches Ok(rg) ==> range_wf(rg),
{
    match ranges_attr {
        AttrValue::RangesRef(off) => {
            match ranges_sec {
                None => Err(Error::MissingSection),
                Some(sec) => {
                    let mut c = match raw::range_cursor(sec, off, address_size, version,
                        base_address) {
                        Ok(c) => c,
                        Err(_) => {
                            return Err(Error::FormatError);
                        },
                    };
                    let ghost steps = raw::range_steps_of(
                        sec.bytes@,
                        sec.little,
                        off,
                        address_size,
                        version,
                        base_address,
                    );
                    let mut out: Vec<Interval> = Vec::new();
                    let mut done: bool = false;
                    while !done
                        invariant
                            range_steps_wf(raw::range_steps(c)),
                            has_bad(steps) == has_bad(raw::range_steps(c)),
                            items_of(steps) =~= out@ + items_of(raw::range_steps(c)),
                            forall|k: int|
                                0 <= k < raw::range_steps(c).len() ==> (
                                #[trigger] raw::range_steps(c)[k] matches RangeStep::Item(v)
                                    ==> v.start <= v.end),
                            forall|k: int| 0 <= k < out@.len() ==> #[trigger] out@[k].start
                                <= out@[k].end,
                            done ==> raw::range_steps(c).len() == 0,
                        decreases raw::range_steps(c).len() + (if done { 0nat } else { 1nat }),
                    {
                        let ghost s = raw::range_steps(c);
                        match raw::next_range(&mut c) {
                            Ok(Some(v)) => {
                                proof {
                                    assert(s.len() > 0 && s[0] == RangeStep::Item(v));
                                    assert(items_of(s) == seq![v] + items_of(s.drop_first()));
                                }
                                out.push(v);
                            },
                            Ok(None) => {
                                proof {
                                    assert(s.len() == 0);
                                }
                                done = true;
                            },
                            Err(_) => {
                                proof {
                                    assert(s.len() > 0 && s[0] is Bad);
                                    assert(has_bad(steps));
                                }
                                return Err(Error::FormatError);
                            },
                        }
                    }
                    proof {
                        assert(items_of(raw::range_steps(c)) =~= Seq::<Interval>::empty());
                        assert(items_of(steps) =~= out@);
                        assert(!has_bad(steps));
                    }
                    Ok(AddressRange::Scattered(out))
                },
            }
        },
        AttrValue::Absent => {
            match high_attr {
                AttrValue::Addr(h) => {
                    if low_pc <= h {
                        Ok(AddressRange::Contiguous { start: low_pc, end: h })
                    } else {
                        Err(Error::FormatError)
                    }
                },
                AttrValue::Udata(o) => {
                    if o <= u64::MAX - low_pc {
                        Ok(AddressRange::Contiguous { start: low_pc, end: low_pc + o })
                    } else {
                        Err(Error::FormatError)
                    }
                },
                AttrValue::Absent => Err(
                    Error::Message(String::from_str("no end bound for address range")),
                ),
                _ => Err(Error::Message(String::from_str("invalid attribute value for ranges"))),
            }
        },
        _ => Err(Error::Message(String::from_str("invalid attribute value for ranges"))),
    }
}

} // verus!
