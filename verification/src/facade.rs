//! The resolver facade: finding the unit that owns an address and, on
//! demand, the nearest emitted row of that unit's line table.

use vstd::prelude::*;

use crate::lines::{decode_lines, line_table_of, LineRow};
use crate::ranges::{contains, range_contains};
use crate::raw;
use crate::section::SectionView;
use crate::units::{Catalog, UnitDescriptor};

verus! {

/// Whether a unit's resolved range contains the address. A unit without a
/// range takes part in no lookup.
pub open spec fn unit_contains(u: UnitDescriptor, addr: u64) -> bool {
    match u.range {
        Some(rg) => range_contains(rg, addr),
        None => false,
    }
}

/// What the unit lookup promises: the first unit, in catalog order, whose
/// resolved range contains the address, and nothing exactly when no unit's
/// range does.
pub open spec fn find_unit_post(cat: Catalog, addr: u64, r: Option<usize>) -> bool {
    match r {
        Some(i) => {
            &&& 0 <= i < cat.units@.len()
            &&& unit_contains(cat.units@[i as int], addr)
            &&& forall|j: int| 0 <= j < i ==> !unit_contains(#[trigger] cat.units@[j], addr)
        },
        None => forall|j: int|
            0 <= j < cat.units@.len() ==> !unit_contains(#[trigger] cat.units@[j], addr),
    }
}

/// Returns the index of the first unit, in catalog order, whose resolved
/// range contains `addr`, and `None` when no unit's range does — which is
/// expected, not an error, for addresses outside the binary's own compile
/// units.
#[verifier::loop_isolation(false)]
pub fn find_unit_for_address(cat: &Catalog, addr: u64) -> (r: Option<usize>)
    ensures
        find_unit_post(*cat, addr, r),
{
    let mut i: usize = 0;
    while i < cat.units.len()
        invariant
            i <= cat.units@.len(),
            forall|j: int| 0 <= j < i ==> !unit_contains(#[trigger] cat.units@[j], addr),
        decreases cat.units@.len() - i,
    {
        let inside: bool = match &cat.units[i].range {
            Some(rg) => contains(rg, addr),
            None => false,
        };
        if inside {
            return Some(i);
        }
        i = i + 1;
    }
    None
}

/// Every address inside exactly one unit's range is resolved to that unit:
/// when no two units' ranges share the address, the lookup cannot pick any
/// other.
pub proof fn lemma_find_unit_exact(cat: Catalog, addr: u64, i: int, r: Option<usize>)
    requires
        find_unit_post(cat, addr, r),
        0 <= i < cat.units@.len(),
        unit_contains(cat.units@[i], addr),
        forall|p: int, q: int|
            0 <= p < q < cat.units@.len() ==> !(unit_contains(#[trigger] cat.units@[p], addr)
                && unit_contains(#[trigger] cat.units@[q], addr)),
    ensures
        r matches Some(k) && k == i,
{
    match r {
        Some(k) => {
            if (k as int) < i {
                assert(!(unit_contains(cat.units@[k as int], addr) && unit_contains(
                    cat.units@[i],
                    addr,
                )));
            } else if i < k as int {
                assert(!unit_contains(cat.units@[i], addr));
            }
        },
        None => {
            assert(!unit_contains(cat.units@[i], addr));
        },
    }
}

/// The rows of a line table, all sequences flattened in order.
pub open spec fn rows_in_order(table: Seq<Seq<LineRow>>) -> Seq<LineRow>
    decreases table.len(),
{
    if table.len() == 0 {
        Seq::<LineRow>::empty()
    } else {
        rows_in_order(table.drop_last()) + table.last()
    }
}

/// The row with the greatest address at most `addr`, the earliest such row
/// when several share that address; nothing when every row lies above
/// `addr`.
pub open spec fn best_row(rows: Seq<LineRow>, addr: u64) -> Option<LineRow>
    decreases rows.len(),
{
    if rows.len() == 0 {
        None::<LineRow>
    } else {
        let prev = best_row(rows.drop_last(), addr);
        let x = rows.last();
        if x.address <= addr && (match prev {
            None => true,
            Some(b) => x.address > b.address,
        }) {
            Some(x)
        } else {
            prev
        }
    }
}

/// The chosen row is one of the rows, lies at or below `addr`, and no row at
/// or below `addr` lies above it; nothing is chosen exactly when every row
/// lies strictly above `addr`.
pub proof fn lemma_best_row_greatest(rows: Seq<LineRow>, addr: u64)
    ensures
        match best_row(rows, addr) {
            Some(b) => {
                &&& exists|k: int| 0 <= k < rows.len() && rows[k] == b
                &&& b.address <= addr
                &&& forall|k: int|
                    0 <= k < rows.len() && (#[trigger] rows[k]).address <= addr ==> rows[k].address
                        <= b.address
            },
            None => forall|k: int| 0 <= k < rows.len() ==> (#[trigger] rows[k]).address > addr,
        },
    decreases rows.len(),
{
    if rows.len() == 0 {
    } else {
        let pre = rows.drop_last();
        lemma_best_row_greatest(pre, addr);
        assert(forall|k: int| 0 <= k < rows.len() - 1 ==> #[trigger] rows[k] == pre[k]);
        assert(rows.last() == rows[rows.len() - 1]);
        match best_row(pre, addr) {
            Some(b) => {
                let k0 = choose|k: int| 0 <= k < pre.len() && pre[k] == b;
                assert(rows[k0] == b);
                assert(exists|k: int| 0 <= k < rows.len() && rows[k] == b);
            },
            None => {},
        }
        match best_row(rows, addr) {
            Some(b2) => {
                assert(forall|k: int|
                    0 <= k < rows.len() && (#[trigger] rows[k]).address <= addr ==> rows[k].address
                        <= b2.address) by {
                    assert(forall|k: int|
                        0 <= k < pre.len() && (#[trigger] pre[k]).address <= addr ==> (
                        match best_row(pre, addr) {
                            Some(b) => pre[k].address <= b.address,
                            None => false,
                        }));
                };
            },
            None => {},
        }
    }
}

/// Decodes the unit's line program on demand and returns the row with the
/// greatest address at most `addr` over all of the unit's sequences, or
/// nothing when the unit has no line program, its program does not parse, or
/// `addr` precedes every row.
#[verifier::loop_isolation(false)]
pub fn resolve_line(line: &SectionView, unit: &UnitDescriptor, addr: u64) -> (r: Option<LineRow>)
    ensures
        (match unit.line_offset {
            None => r is None,
            Some(off) => {
                if raw::line_open_ok(line.bytes@, line.little, off, unit.address_size) {
                    r == best_row(
                        rows_in_order(
                            line_table_of(
                                raw::line_steps_of(line.bytes@, line.little, off, unit.address_size),
                            ),
                        ),
                        addr,
                    )
                } else {
                    r is None
                }
            },
        }),
{
    let off: u64 = match unit.line_offset {
        Some(off) => off,
        None => {
            return None;
        },
    };
    let table = decode_lines(line, off, unit.address_size);
    let ghost spec_table = line_table_of(
        raw::line_steps_of(line.bytes@, line.little, off, unit.address_size),
    );
    let ghost open_ok = raw::line_open_ok(line.bytes@, line.little, off, unit.address_size);
    let ghost goal: Seq<LineRow> = if open_ok {
        rows_in_order(spec_table)
    } else {
        Seq::<LineRow>::empty()
    };
    proof {
        if !open_ok {
            assert(best_row(goal, addr) is None);
        }
    }
    let mut flat: Vec<LineRow> = Vec::new();
    let ghost tviews = crate::lines::spec_seqs_of(table@);
    proof {
        if open_ok {
            assert(tviews =~= spec_table);
        }
        assert(rows_in_order(tviews.take(0)) =~= Seq::<LineRow>::empty());
        assert(flat@ =~= rows_in_order(tviews.take(0)));
    }
    let mut i: usize = 0;
    while i < table.len()
        invariant
            i <= table@.len(),
            flat@ == rows_in_order(tviews.take(i as int)),
        decreases table@.len() - i,
    {
        let ghost before = flat@;
        let mut j: usize = 0;
        let n: usize = table[i].len();
        while j < n
            invariant
                j <= n,
                n == table@[i as int]@.len(),
                i < table@.len(),
                flat@ == before + table@[i as int]@.take(j as int),
            decreases n - j,
        {
            flat.push(table[i][j]);
            j = j + 1;
            proof {
                assert(table@[i as int]@.take(j as int) =~= table@[i as int]@.take(
                    j - 1,
                ).push(table@[i as int]@[j - 1]));
                assert(flat@ =~= before + table@[i as int]@.take(j as int));
            }
        }
        i = i + 1;
        proof {
            assert(table@[i - 1]@.take(n as int) =~= table@[i - 1]@);
            assert(tviews.take(i as int).drop_last() =~= tviews.take(i - 1));
            assert(tviews.take(i as int).last() == tviews[i - 1]);
            assert(flat@ =~= rows_in_order(tviews.take(i - 1)) + tviews[i - 1]);
            assert(flat@ == rows_in_order(tviews.take(i as int)));
        }
    }
    proof {
        assert(tviews.take(table@.len() as int) =~= tviews);
        if open_ok {
            assert(flat@ == goal);
        } else {
            assert(table@.len() == 0);
            assert(flat@ =~= goal);
        }
    }
    let mut best: Option<LineRow> = None;
    let mut k: usize = 0;
    proof {
        assert(flat@.take(0) =~= Seq::<LineRow>::empty());
    }
    while k < flat.len()
        invariant
            k <= flat@.len(),
            best == best_row(flat@.take(k as int), addr),
        decreases flat@.len() - k,
    {
        let x = flat[k];
        let better: bool = x.address <= addr && (match best {
            Some(b) => x.address > b.address,
            None => true,
        });
        if better {
            best = Some(x);
        }
        k = k + 1;
        proof {
            assert(flat@.take(k as int).drop_last() =~= flat@.take(k - 1));
            assert(flat@.take(k as int).last() == flat@[k - 1]);
        }
    }
    proof {
        assert(flat@.take(flat@.len() as int) =~= flat@);
    }
    best
}

} // verus!
