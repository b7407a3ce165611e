//! Line-number program decoding: the replayed state machine's rows, their
//! grouping into address sequences, and the row model used by contracts.

use vstd::prelude::*;

use crate::raw;
use crate::section::SectionView;

verus! {

/// One row as the line-number state machine emits it, including the
/// end-of-sequence marker flag.
#[derive(Debug, Clone, Copy, PartialEq, Eq, Structural)]
pub struct RawRow {
    pub address: u64,
    /// Index of the source file in the line program's file table.
    pub file: u64,
    /// Source line number; zero when the row carries none.
    pub line: u64,
    /// Source column number; zero means the left edge.
    pub column: u64,
    /// True for the marker that closes a sequence; such a row is never
    /// resolvable.
    pub end_sequence: bool,
}

/// One step of replaying a line-number program: either a computed row, or a
/// decoding failure that ends the replay.
#[derive(Debug, Clone, Copy, PartialEq, Eq, Structural)]
pub enum RowStep {
    Row(RawRow),
    Bad,
}

/// A resolvable row of the reconstructed line table.
#[derive(Debug, Clone, Copy, PartialEq, Eq, Structural)]
pub struct LineRow {
    pub address: u64,
    pub file: u64,
    pub line: u64,
    pub column: u64,
}

/// The resolvable form of a raw row, with the sequence marker stripped.
pub open spec fn emit(r: RawRow) -> LineRow {
    LineRow { address: r.address, file: r.file, line: r.line, column: r.column }
}

/// A failure step can stand only at the very end of a replay.
pub open spec fn row_steps_wf(s: Seq<RowStep>) -> bool
    decreases s.len(),
{
    if s.len() == 0 {
        true
    } else if s[0] is Bad {
        s.len() == 1
    } else {
        row_steps_wf(s.drop_first())
    }
}

/// Rows within one sequence never decrease in address.
pub open spec fn monotone(rows: Seq<LineRow>) -> bool {
    forall|i: int, j: int|
        0 <= i <= j < rows.len() ==> #[trigger] rows[i].address <= #[trigger] rows[j].address
}

/// Splits replay steps into address sequences. A row whose marker flag is set
/// closes the sequence being built and is not emitted; a row whose address
/// regresses within its sequence is treated as corrupt and skipped; a failure
/// step ends decoding, keeping what was built; empty sequences are dropped.
pub open spec fn split_rows(s: Seq<RowStep>, cur: Seq<LineRow>) -> Seq<Seq<LineRow>>
    decreases s.len(),
{
    if s.len() == 0 {
        if cur.len() == 0 {
            Seq::<Seq<LineRow>>::empty()
        } else {
            seq![cur]
        }
    } else {
        match s[0] {
            RowStep::Bad => if cur.len() == 0 {
                Seq::<Seq<LineRow>>::empty()
            } else {
                seq![cur]
            },
            RowStep::Row(r) => {
                if r.end_sequence {
                    (if cur.len() == 0 {
                        Seq::<Seq<LineRow>>::empty()
                    } else {
                        seq![cur]
                    }) + split_rows(s.drop_first(), Seq::<LineRow>::empty())
                } else if cur.len() == 0 || r.address >= cur.last().address {
                    split_rows(s.drop_first(), cur.push(emit(r)))
                } else {
                    split_rows(s.drop_first(), cur)
                }
            },
        }
    }
}

/// The line table decoded from a replay: its sequences in encounter order.
pub open spec fn line_table_of(s: Seq<RowStep>) -> Seq<Seq<LineRow>> {
    split_rows(s, Seq::<LineRow>::empty())
}

/// The sequence of views of a vector of row vectors.
pub open spec fn spec_seqs_of(v: Seq<Vec<LineRow>>) -> Seq<Seq<LineRow>> {
    v.map_values(|x: Vec<LineRow>| x@)
}

proof fn lemma_monotone_push(cur: Seq<LineRow>, x: LineRow)
    requires
        monotone(cur),
        cur.len() == 0 || x.address >= cur.last().address,
    ensures
        monotone(cur.push(x)),
{
    let p = cur.push(x);
    assert forall|i: int, j: int| 0 <= i <= j < p.len() implies #[trigger] p[i].address
        <= #[trigger] p[j].address by {
        if j < cur.len() {
            assert(p[i] == cur[i] && p[j] == cur[j]);
        } else {
            assert(p[j] == x);
            if i < cur.len() {
                assert(cur[i].address <= cur.last().address);
            }
        }
    }
}

proof fn lemma_split_rows_monotone(s: Seq<RowStep>, cur: Seq<LineRow>)
    requires
        monotone(cur),
    ensures
        forall|i: int|
            0 <= i < split_rows(s, cur).len() ==> monotone(#[trigger] split_rows(s, cur)[i]),
    decreases s.len(),
{
    let res = split_rows(s, cur);
    if s.len() == 0 {
        assert forall|i: int| 0 <= i < res.len() implies monotone(#[trigger] res[i]) by {
            assert(res[i] == cur);
        }
    } else {
        match s[0] {
            RowStep::Bad => {
                assert forall|i: int| 0 <= i < res.len() implies monotone(#[trigger] res[i]) by {
                    assert(res[i] == cur);
                }
            },
            RowStep::Row(r) => {
                if r.end_sequence {
                    let head: Seq<Seq<LineRow>> = if cur.len() == 0 {
                        Seq::<Seq<LineRow>>::empty()
                    } else {
                        seq![cur]
                    };
                    let tail = split_rows(s.drop_first(), Seq::<LineRow>::empty());
                    lemma_split_rows_monotone(s.drop_first(), Seq::<LineRow>::empty());
                    assert forall|i: int| 0 <= i < res.len() implies monotone(
                        #[trigger] res[i],
                    ) by {
                        if i < head.len() {
                            assert(res[i] == cur);
                        } else {
                            assert(res[i] == tail[i - head.len()]);
                            assert(monotone(tail[i - head.len()]));
                        }
                    }
                } else if cur.len() == 0 || r.address >= cur.last().address {
                    lemma_monotone_push(cur, emit(r));
                    lemma_split_rows_monotone(s.drop_first(), cur.push(emit(r)));
                    assert forall|i: int| 0 <= i < res.len() implies monotone(#[trigger] res[i]) by {
                        assert(res[i] == split_rows(s.drop_first(), cur.push(emit(r)))[i]);
                    }
                } else {
                    lemma_split_rows_monotone(s.drop_first(), cur);
                    assert forall|i: int| 0 <= i < res.len() implies monotone(#[trigger] res[i]) by {
                        assert(res[i] == split_rows(s.drop_first(), cur)[i]);
                    }
                }
            },
        }
    }
}

/// Within one decoded sequence, consecutive rows never decrease in address.
pub proof fn lemma_line_table_monotone(s: Seq<RowStep>)
    ensures
        forall|i: int|
            0 <= i < line_table_of(s).len() ==> monotone(#[trigger] line_table_of(s)[i]),
{
    lemma_split_rows_monotone(s, Seq::<LineRow>::empty());
}

/// Whether one replay step carries a row that is not an end-of-sequence
/// marker and strips to the given row.
pub open spec fn step_emits(st: RowStep, row: LineRow) -> bool {
    st matches RowStep::Row(x) && !x.end_sequence && emit(x) == row
}

/// Whether some replay step emits the row.
pub open spec fn emitted(s: Seq<RowStep>, row: LineRow) -> bool {
    exists|k: int| 0 <= k < s.len() && step_emits(#[trigger] s[k], row)
}

proof fn lemma_emitted_lift(s: Seq<RowStep>, row: LineRow)
    requires
        s.len() > 0,
        emitted(s.drop_first(), row),
    ensures
        emitted(s, row),
{
    let k = choose|k: int|
        0 <= k < s.drop_first().len() && step_emits(#[trigger] s.drop_first()[k], row);
    assert(s[k + 1] == s.drop_first()[k]);
    assert(step_emits(s[k + 1], row));
}

proof fn lemma_split_rows_sources(s: Seq<RowStep>, cur: Seq<LineRow>)
    ensures
        forall|i: int, j: int|
            0 <= i < split_rows(s, cur).len() && 0 <= j < split_rows(s, cur)[i].len()
                ==> cur.contains(#[trigger] split_rows(s, cur)[i][j]) || emitted(
                s,
                split_rows(s, cur)[i][j],
            ),
    decreases s.len(),
{
    let res = split_rows(s, cur);
    if s.len() == 0 {
        assert forall|i: int, j: int|
            0 <= i < res.len() && 0 <= j < res[i].len() implies cur.contains(
            #[trigger] res[i][j],
        ) || emitted(s, res[i][j]) by {
            assert(res[i] == cur);
            assert(cur.contains(res[i][j]));
        }
    } else {
        match s[0] {
            RowStep::Bad => {
                assert forall|i: int, j: int|
                    0 <= i < res.len() && 0 <= j < res[i].len() implies cur.contains(
                    #[trigger] res[i][j],
                ) || emitted(s, res[i][j]) by {
                    assert(res[i] == cur);
                    assert(cur.contains(res[i][j]));
                }
            },
            RowStep::Row(r) => {
                if r.end_sequence {
                    let head: Seq<Seq<LineRow>> = if cur.len() == 0 {
                        Seq::<Seq<LineRow>>::empty()
                    } else {
                        seq![cur]
                    };
                    let tail = split_rows(s.drop_first(), Seq::<LineRow>::empty());
                    lemma_split_rows_sources(s.drop_first(), Seq::<LineRow>::empty());
                    assert forall|i: int, j: int|
                        0 <= i < res.len() && 0 <= j < res[i].len() implies cur.contains(
                        #[trigger] res[i][j],
                    ) || emitted(s, res[i][j]) by {
                        if i < head.len() {
                            assert(res[i] == cur);
                            assert(cur.contains(res[i][j]));
                        } else {
                            assert(res[i] == tail[i - head.len()]);
                            assert(res[i][j] == tail[i - head.len()][j]);
                            assert(Seq::<LineRow>::empty().contains(tail[i - head.len()][j])
                                || emitted(s.drop_first(), tail[i - head.len()][j]));
                            assert(emitted(s.drop_first(), res[i][j]));
                            lemma_emitted_lift(s, res[i][j]);
                        }
                    }
                } else if cur.len() == 0 || r.address >= cur.last().address {
                    let cur2 = cur.push(emit(r));
                    lemma_split_rows_sources(s.drop_first(), cur2);
                    assert forall|i: int, j: int|
                        0 <= i < res.len() && 0 <= j < res[i].len() implies cur.contains(
                        #[trigger] res[i][j],
                    ) || emitted(s, res[i][j]) by {
                        assert(res == split_rows(s.drop_first(), cur2));
                        assert(res[i][j] == split_rows(s.drop_first(), cur2)[i][j]);
                        assert(cur2.contains(split_rows(s.drop_first(), cur2)[i][j]) || emitted(
                            s.drop_first(),
                            split_rows(s.drop_first(), cur2)[i][j],
                        ));
                        if cur2.contains(res[i][j]) {
                            let k = choose|k: int| 0 <= k < cur2.len() && cur2[k] == res[i][j];
                            if k < cur.len() {
                                assert(cur[k] == res[i][j]);
                                assert(cur.contains(res[i][j]));
                            } else {
                                assert(res[i][j] == emit(r));
                                assert(step_emits(s[0], res[i][j]));
                                assert(emitted(s, res[i][j]));
                            }
                        } else {
                            lemma_emitted_lift(s, res[i][j]);
                        }
                    }
                } else {
                    lemma_split_rows_sources(s.drop_first(), cur);
                    assert forall|i: int, j: int|
                        0 <= i < res.len() && 0 <= j < res[i].len() implies cur.contains(
                        #[trigger] res[i][j],
                    ) || emitted(s, res[i][j]) by {
                        assert(res == split_rows(s.drop_first(), cur));
                        assert(res[i][j] == split_rows(s.drop_first(), cur)[i][j]);
                        assert(cur.contains(split_rows(s.drop_first(), cur)[i][j]) || emitted(
                            s.drop_first(),
                            split_rows(s.drop_first(), cur)[i][j],
                        ));
                        if !cur.contains(res[i][j]) {
                            lemma_emitted_lift(s, res[i][j]);
                        }
                    }
                }
            },
        }
    }
}

/// The end-of-sequence marker is never returned as a resolvable row: every
/// row of the decoded table stems from a replay step whose row is not a
/// marker.
pub proof fn lemma_line_table_no_marker(s: Seq<RowStep>)
    ensures
        forall|i: int, j: int|
            0 <= i < line_table_of(s).len() && 0 <= j < line_table_of(s)[i].len() ==> emitted(
                s,
                #[trigger] line_table_of(s)[i][j],
            ),
{
    lemma_split_rows_sources(s, Seq::<LineRow>::empty());
}

/// Decoding is a pure function of the stored bytes: two tables decoded from
/// the same line-program offset of the same section are identical.
pub proof fn lemma_decode_deterministic(
    bytes: Seq<u8>,
    little: bool,
    offset: u64,
    address_size: u8,
    r1: Seq<Seq<LineRow>>,
    r2: Seq<Seq<LineRow>>,
)
    requires
        r1 == line_table_of(raw::line_steps_of(bytes, little, offset, address_size)),
        r2 == line_table_of(raw::line_steps_of(bytes, little, offset, address_size)),
    ensures
        r1 == r2,
{
}

/// Decodes the line-number program at `offset` in the line section, replaying
/// the state machine row by row and splitting the rows into address
/// sequences. Decoding is a pure function of the section bytes: the result is
/// pinned to the replay steps the bytes determine. An offset at which no
/// program header parses yields an empty table.
#[verifier::loop_isolation(false)]
pub fn decode_lines(line: &SectionView, offset: u64, address_size: u8) -> (r: Vec<Vec<LineRow>>)
    ensures
        ({
            let table = line_table_of(
                raw::line_steps_of(line.bytes@, line.little, offset, address_size),
            );
            if raw::line_open_ok(line.bytes@, line.little, offset, address_size) {
                &&& r@.len() == table.len()
                &&& forall|i: int| 0 <= i < table.len() ==> #[trigger] r@[i]@ == table[i]
            } else {
                r@.len() == 0
            }
        }),
        forall|i: int| 0 <= i < r@.len() ==> monotone(#[trigger] r@[i]@),
{
    let mut out: Vec<Vec<LineRow>> = Vec::new();
    let ghost table = line_table_of(
        raw::line_steps_of(line.bytes@, line.little, offset, address_size),
    );
    let mut c = match raw::line_cursor(line, offset, address_size) {
        Ok(c) => c,
        Err(_) => {
            return out;
        },
    };
    let mut cur: Vec<LineRow> = Vec::new();
    let mut done: bool = false;
    while !done
        invariant
            row_steps_wf(raw::line_steps(c)),
            monotone(cur@),
            table =~= spec_seqs_of(out@) + split_rows(raw::line_steps(c), cur@),
            done ==> raw::line_steps(c).len() == 0,
        decreases raw::line_steps(c).len() + (if done { 0nat } else { 1nat }),
    {
        let ghost s = raw::line_steps(c);
        match raw::next_line_row(&mut c) {
            Ok(Some(row)) => {
                proof {
                    assert(s.len() > 0 && s[0] == RowStep::Row(row));
                    assert(raw::line_steps(c) == s.drop_first());
                }
                if row.end_sequence {
                    if cur.len() > 0 {
                        let ghost out0 = out@;
                        let ghost cur0 = cur@;
                        out.push(cur);
                        cur = Vec::new();
                        proof {
                            assert(spec_seqs_of(out@) =~= spec_seqs_of(out0) + seq![cur0]);
                            assert(split_rows(s, cur0) == seq![cur0] + split_rows(
                                s.drop_first(),
                                Seq::<LineRow>::empty(),
                            ));
                            assert(table =~= spec_seqs_of(out@) + split_rows(
                                raw::line_steps(c),
                                cur@,
                            ));
                        }
                    } else {
                        proof {
                            assert(cur@ =~= Seq::<LineRow>::empty());
                            assert(split_rows(s, cur@) == Seq::<Seq<LineRow>>::empty()
                                + split_rows(s.drop_first(), Seq::<LineRow>::empty()));
                            assert(Seq::<Seq<LineRow>>::empty() + split_rows(
                                s.drop_first(),
                                Seq::<LineRow>::empty(),
                            ) =~= split_rows(s.drop_first(), Seq::<LineRow>::empty()));
                            assert(table =~= spec_seqs_of(out@) + split_rows(
                                raw::line_steps(c),
                                cur@,
                            ));
                        }
                    }
                } else {
                    let keep: bool = if cur.len() == 0 {
                        true
                    } else {
                        let last_addr: u64 = cur[cur.len() - 1].address;
                        row.address >= last_addr
                    };
                    if keep {
                        let ghost cur0 = cur@;
                        cur.push(LineRow {
                            address: row.address,
                            file: row.file,
                            line: row.line,
                            column: row.column,
                        });
                        proof {
                            assert(cur@ == cur0.push(emit(row)));
                            assert(cur0.len() == 0 || emit(row).address >= cur0.last().address);
                            assert(monotone(cur@)) by {
                                assert(forall|i: int, j: int|
                                    0 <= i <= j < cur@.len() ==> #[trigger] cur@[i].address
                                        <= #[trigger] cur@[j].address) by {
                                    assert(forall|i: int|
                                        0 <= i < cur0.len() ==> #[trigger] cur0[i].address
                                            <= cur0.last().address);
                                };
                            };
                            assert(split_rows(s, cur0) == split_rows(
                                s.drop_first(),
                                cur0.push(emit(row)),
                            ));
                        }
                    } else {
                        proof {
                            assert(split_rows(s, cur@) == split_rows(s.drop_first(), cur@));
                        }
                    }
                }
            },
            Ok(None) => {
                proof {
                    assert(s.len() == 0);
                }
                done = true;
            },
            Err(_) => {
                proof {
                    assert(s.len() > 0 && s[0] is Bad);
                    assert(s.len() == 1);
                    assert(raw::line_steps(c) =~= Seq::<RowStep>::empty());
                    assert(split_rows(s, cur@) == split_rows(raw::line_steps(c), cur@));
                }
            },
        }
    }
    proof {
        assert(split_rows(raw::line_steps(c), cur@) == (if cur@.len() == 0 {
            Seq::<Seq<LineRow>>::empty()
        } else {
            seq![cur@]
        }));
    }
    if cur.len() > 0 {
        let ghost out0 = out@;
        let ghost cur0 = cur@;
        out.push(cur);
        proof {
            assert(spec_seqs_of(out@) =~= spec_seqs_of(out0) + seq![cur0]);
            assert(table =~= spec_seqs_of(out@));
        }
    } else {
        proof {
            assert(table =~= spec_seqs_of(out@));
        }
    }
    proof {
        assert(forall|i: int| 0 <= i < table.len() ==> #[trigger] out@[i]@ == table[i]);
        lemma_split_rows_monotone(
            raw::line_steps_of(line.bytes@, line.little, offset, address_size),
            Seq::<LineRow>::empty(),
        );
        assert forall|i: int| 0 <= i < out@.len() implies monotone(#[trigger] out@[i]@) by {
            assert(out@[i]@ == table[i]);
        }
    }
    out
}

} // verus!
