//! The benchmark's reports: one row per (primitive, N) cell, written as CSV
//! and as a Markdown table with the per-operation marginal cost.

use crate::records::append;
use vstd::prelude::*;
use vstd::string::StringSliceAdditionalSpecFns;
use vstd::utf8::encode_utf8;

verus! {

/// One measured cell.
pub struct Row {
    pub primitive: String,
    pub n: u32,
    pub cycles: u64,
    pub prover_gas: u64,
    pub exec_ms_median: u128,
}

/// The machine the benchmark ran on, as three lines of text.
pub struct HwSpec {
    pub cpu: String,
    pub ram: String,
    pub os: String,
}

/// UTF-8 bytes of a text.
pub open spec fn utf8(s: Seq<char>) -> Seq<u8> {
    encode_utf8(s)
}

/// Bytes of a string literal.
pub open spec fn lit(s: &str) -> Seq<u8> {
    s.spec_bytes()
}

/// Decimal digits of `v`, most significant first, no leading zeros.
pub open spec fn decimal(v: nat) -> Seq<u8>
    decreases v,
{
    if v < 10 {
        seq![(48 + v) as u8]
    } else {
        decimal(v / 10) + seq![(48 + v % 10) as u8]
    }
}

/// The decimal digits of `v` (`v.to_string()`), as bytes.
pub fn decimal_bytes(v: u128) -> (d: Vec<u8>)
    ensures
        d@ == decimal(v as nat),
    decreases v,
{
    if v < 10 {
        let mut d: Vec<u8> = Vec::new();
        d.push((48 + v) as u8);
        assert(d@ =~= seq![(48 + v) as u8]);
        d
    } else {
        let mut d = decimal_bytes(v / 10);
        let ghost before = d@;
        d.push((48 + v % 10) as u8);
        assert(d@ =~= before + seq![(48 + v % 10) as u8]);
        d
    }
}

/// Appends the UTF-8 bytes of a string slice.
fn push_str(out: &mut Vec<u8>, s: &str)
    ensures
        final(out)@ == old(out)@ + lit(s),
{
    append(out, s.as_bytes());
}

/// Appends the UTF-8 bytes of a string.
fn push_string(out: &mut Vec<u8>, s: &String)
    ensures
        final(out)@ == old(out)@ + utf8(s@),
{
    let t: &str = s.as_str();
    append(out, t.as_bytes());
}

/// Appends the decimal digits of `v`.
fn push_decimal(out: &mut Vec<u8>, v: u128)
    ensures
        final(out)@ == old(out)@ + decimal(v as nat),
{
    let d = decimal_bytes(v);
    append(out, d.as_slice());
}

// ---------------------------------------------------------------------------
// CSV
// ---------------------------------------------------------------------------

/// The CSV header line.
pub open spec fn csv_header() -> Seq<u8> {
    lit("primitive,n,cycles,prover_gas,exec_ms_median\n")
}

/// The CSV line of one row.
pub open spec fn csv_line(r: Row) -> Seq<u8> {
    utf8(r.primitive@) + lit(",") + decimal(r.n as nat) + lit(",") + decimal(r.cycles as nat) + lit(",")
        + decimal(r.prover_gas as nat) + lit(",") + decimal(r.exec_ms_median as nat) + lit("\n")
}

/// The CSV lines of the first `k` rows.
pub open spec fn csv_lines(rows: Seq<Row>, k: nat) -> Seq<u8>
    decreases k,
{
    if k == 0 {
        seq![]
    } else {
        csv_lines(rows, (k - 1) as nat) + csv_line(rows[k - 1])
    }
}

/// The CSV report: a header, then one line per row, in order.
pub open spec fn csv_spec(rows: Seq<Row>) -> Seq<u8> {
    csv_header() + csv_lines(rows, rows.len())
}

/// The text of the CSV report.
pub fn csv_report(rows: &Vec<Row>) -> (text: Vec<u8>)
    ensures
        text@ == csv_spec(rows@),
{
    let mut s: Vec<u8> = Vec::new();
    push_str(&mut s, "primitive,n,cycles,prover_gas,exec_ms_median\n");
    assert(s@ =~= csv_header());
    let mut i: usize = 0;
    while i < rows.len()
        invariant
            i <= rows@.len(),
            s@ == csv_header() + csv_lines(rows@, i as nat),
        decreases rows@.len() - i,
    {
        let r = &rows[i];
        let ghost before = s@;
        push_string(&mut s, &r.primitive);
        push_str(&mut s, ",");
        push_decimal(&mut s, r.n as u128);
        push_str(&mut s, ",");
        push_decimal(&mut s, r.cycles as u128);
        push_str(&mut s, ",");
        push_decimal(&mut s, r.prover_gas as u128);
        push_str(&mut s, ",");
        push_decimal(&mut s, r.exec_ms_median);
        push_str(&mut s, "\n");
        assert(s@ =~= before + csv_line(rows@[i as int]));
        i = i + 1;
    }
    s
}

// ---------------------------------------------------------------------------
// Markdown
// ---------------------------------------------------------------------------

/// Cycles of the last row, among the first `k`, for primitive `prim` at
/// repetition count `n`.
pub open spec fn last_cycles(rows: Seq<Row>, k: nat, prim: Seq<char>, n: u32) -> Option<u64>
    decreases k,
{
    if k == 0 {
        None
    } else if rows[k - 1].primitive@ == prim && rows[k - 1].n == n {
        Some(rows[k - 1].cycles)
    } else {
        last_cycles(rows, (k - 1) as nat, prim, n)
    }
}

/// The per-operation marginal cost shown in the row `r` of a report over
/// `rows`: for an N=100 row, (cycles at N=100 − cycles at N=1) / 99 for its
/// primitive, floored at zero, taking the last row of each count; `None`
/// (shown as `-`) otherwise.
pub open spec fn per_op_cycles(rows: Seq<Row>, r: Row) -> Option<u64> {
    if r.n == 100 {
        match (last_cycles(rows, rows.len(), r.primitive@, 1), last_cycles(rows, rows.len(), r.primitive@, 100)) {
            (Some(c1), Some(c100)) => Some((if c100 >= c1 { (c100 - c1) as u64 } else { 0u64 }) / 99),
            _ => None,
        }
    } else {
        None
    }
}

/// Text shown for an optional per-op cost.
pub open spec fn per_op_text(v: Option<u64>) -> Seq<u8> {
    match v {
        Some(c) => decimal(c as nat),
        None => lit("-"),
    }
}

/// The table line of row `r` of a report over `rows`.
pub open spec fn md_line(rows: Seq<Row>, r: Row) -> Seq<u8> {
    lit("| ") + utf8(r.primitive@) + lit(" | ") + decimal(r.n as nat) + lit(" | ") + decimal(r.cycles as nat)
        + lit(" | ") + decimal(r.prover_gas as nat) + lit(" | ") + decimal(r.exec_ms_median as nat) + lit(" | ")
        + per_op_text(per_op_cycles(rows, r)) + lit(" |\n")
}

/// The table lines of the first `k` rows.
pub open spec fn md_lines(rows: Seq<Row>, k: nat) -> Seq<u8>
    decreases k,
{
    if k == 0 {
        seq![]
    } else {
        md_lines(rows, (k - 1) as nat) + md_line(rows, rows[k - 1])
    }
}

/// The Markdown report before the table lines.
pub open spec fn md_head(hw: HwSpec) -> Seq<u8> {
    lit("# research demo bench\n\n") + lit("SP1 v6.2.2. `client.execute()` only; no proof gen.\n\n")
        + lit("Hardware:\n\n") + lit("- CPU: ") + utf8(hw.cpu@) + lit("\n") + lit("- RAM: ") + utf8(hw.ram@)
        + lit("\n") + lit("- OS:  ") + utf8(hw.os@) + lit("\n\n")
        + lit("Cycles + prover gas are deterministic for a given (ELF, stdin); spread is zero by construction. ")
        + lit("Only execution wall-clock varies — `exec_ms_median` is the median of ")
        + lit("`--runs` host-side timings.\n\n")
        + lit("| primitive | N | cycles | prover gas | exec ms | per-op cycles |\n")
        + lit("|---|---:|---:|---:|---:|---:|\n")
}

/// The Markdown report after the table lines.
pub open spec fn md_tail() -> Seq<u8> {
    lit("\nPer-op cycles = (cycles at N=100 - cycles at N=1) / 99. ")
        + lit("Strips program-init + IO + commit overhead (constant in N for hashes; ")
        + lit("constant in N for sigs too since the payload is read via read_vec, not bincode-walked).\n")
}

/// The Markdown report: a heading with the hardware, one table line per
/// row in order, and a closing note.
pub open spec fn md_spec(rows: Seq<Row>, hw: HwSpec) -> Seq<u8> {
    md_head(hw) + md_lines(rows, rows.len()) + md_tail()
}

/// Cycles of the last row, among the first `k`, for this primitive at this N.
fn find_last_cycles(rows: &Vec<Row>, k: usize, prim: &String, n: u32) -> (c: Option<u64>)
    requires
        k <= rows@.len(),
    ensures
        c == last_cycles(rows@, k as nat, prim@, n),
    decreases k,
{
    if k == 0 {
        None
    } else {
        let r = &rows[k - 1];
        if r.primitive == *prim && r.n == n {
            Some(r.cycles)
        } else {
            find_last_cycles(rows, k - 1, prim, n)
        }
    }
}

/// The per-op cost of a row of the report.
fn per_op(rows: &Vec<Row>, r: &Row) -> (c: Option<u64>)
    ensures
        c == per_op_cycles(rows@, *r),
{
    if r.n == 100 {
        let first = find_last_cycles(rows, rows.len(), &r.primitive, 1);
        let hundred = find_last_cycles(rows, rows.len(), &r.primitive, 100);
        match (first, hundred) {
            (Some(c1), Some(c100)) => Some(c100.saturating_sub(c1) / 99),
            _ => None,
        }
    } else {
        None
    }
}

/// Appends the table line of one row.
fn push_md_line(s: &mut Vec<u8>, rows: &Vec<Row>, r: &Row)
    ensures
        final(s)@ == old(s)@ + md_line(rows@, *r),
{
    let per = per_op(rows, r);
    let mut line: Vec<u8> = Vec::new();
    push_str(&mut line, "| ");
    push_string(&mut line, &r.primitive);
    push_str(&mut line, " | ");
    push_decimal(&mut line, r.n as u128);
    push_str(&mut line, " | ");
    push_decimal(&mut line, r.cycles as u128);
    push_str(&mut line, " | ");
    push_decimal(&mut line, r.prover_gas as u128);
    push_str(&mut line, " | ");
    push_decimal(&mut line, r.exec_ms_median);
    push_str(&mut line, " | ");
    match per {
        Some(c) => push_decimal(&mut line, c as u128),
        None => push_str(&mut line, "-"),
    }
    push_str(&mut line, " |\n");
    assert(line@ =~= md_line(rows@, *r));
    append(s, line.as_slice());
}

/// The text of the Markdown report.
pub fn markdown_report(rows: &Vec<Row>, hw: &HwSpec) -> (text: Vec<u8>)
    ensures
        text@ == md_spec(rows@, *hw),
{
    let mut s: Vec<u8> = Vec::new();
    push_str(&mut s, "# research demo bench\n\n");
    push_str(&mut s, "SP1 v6.2.2. `client.execute()` only; no proof gen.\n\n");
    push_str(&mut s, "Hardware:\n\n");
    push_str(&mut s, "- CPU: ");
    push_string(&mut s, &hw.cpu);
    push_str(&mut s, "\n");
    push_str(&mut s, "- RAM: ");
    push_string(&mut s, &hw.ram);
    push_str(&mut s, "\n");
    push_str(&mut s, "- OS:  ");
    push_string(&mut s, &hw.os);
    push_str(&mut s, "\n\n");
    push_str(&mut s, "Cycles + prover gas are deterministic for a given (ELF, stdin); spread is zero by construction. ");
    push_str(&mut s, "Only execution wall-clock varies — `exec_ms_median` is the median of ");
    push_str(&mut s, "`--runs` host-side timings.\n\n");
    push_str(&mut s, "| primitive | N | cycles | prover gas | exec ms | per-op cycles |\n");
    push_str(&mut s, "|---|---:|---:|---:|---:|---:|\n");
    assert(s@ =~= md_head(*hw));
    let mut i: usize = 0;
    while i < rows.len()
        invariant
            i <= rows@.len(),
            s@ == md_head(*hw) + md_lines(rows@, i as nat),
        decreases rows@.len() - i,
    {
        let r = &rows[i];
        let ghost before = s@;
        push_md_line(&mut s, rows, r);
        assert(s@ =~= before + md_line(rows@, rows@[i as int]));
        i = i + 1;
    }
    let ghost body = s@;
    push_str(&mut s, "\nPer-op cycles = (cycles at N=100 - cycles at N=1) / 99. ");
    push_str(&mut s, "Strips program-init + IO + commit overhead (constant in N for hashes; ");
    push_str(&mut s, "constant in N for sigs too since the payload is read via read_vec, not bincode-walked).\n");
    assert(s@ =~= body + md_tail());
    s
}

// ---------------------------------------------------------------------------
// Laws of the Markdown table
// ---------------------------------------------------------------------------

/// Whether row `r` is the cell of primitive `prim` at repetition count `n`.
pub open spec fn is_cell(r: Row, prim: Seq<char>, n: u32) -> bool {
    r.primitive@ == prim && r.n == n
}

/// Whether no two of the rows are the same (primitive, N) cell.
pub open spec fn cells_unique(rows: Seq<Row>) -> bool {
    forall|i: int, j: int|
        0 <= i < j < rows.len() ==> !(#[trigger] rows[i].primitive@ == #[trigger] rows[j].primitive@ && rows[i].n
            == rows[j].n)
}

/// Whether `rows2` is `rows` reordered by `sigma`: row `k` of `rows2` is row
/// `sigma[k]` of `rows`, and `sigma` is a bijection of the indices.
pub open spec fn is_permutation(rows: Seq<Row>, rows2: Seq<Row>, sigma: Seq<int>) -> bool {
    &&& rows2.len() == rows.len()
    &&& sigma.len() == rows.len()
    &&& forall|k: int| 0 <= k < sigma.len() ==> 0 <= #[trigger] sigma[k] < rows.len()
    &&& forall|k: int| 0 <= k < sigma.len() ==> #[trigger] rows2[k] == rows[sigma[k]]
    &&& forall|k1: int, k2: int|
        0 <= k1 < k2 < sigma.len() ==> #[trigger] sigma[k1] != #[trigger] sigma[k2]
    &&& forall|i: int| 0 <= i < rows.len() ==> #[trigger] hits(sigma, i)
}

/// Whether some index is sent to `i` by `sigma`.
pub open spec fn hits(sigma: Seq<int>, i: int) -> bool {
    exists|k: int| 0 <= k < sigma.len() && #[trigger] sigma[k] == i
}

/// With unique cells, the last matching row among the first `k` is the only
/// one: `last_cycles` gives its cycles, or `None` when no row matches.
proof fn lemma_last_cycles_unique(rows: Seq<Row>, k: nat, prim: Seq<char>, n: u32)
    requires
        cells_unique(rows),
        k <= rows.len(),
    ensures
        forall|i: int| 0 <= i < k && #[trigger] is_cell(rows[i], prim, n) ==> last_cycles(rows, k, prim, n) == Some(
            rows[i].cycles,
        ),
        (forall|i: int| 0 <= i < k ==> !#[trigger] is_cell(rows[i], prim, n)) ==> last_cycles(rows, k, prim, n)
            is None,
    decreases k,
{
    if k > 0 {
        lemma_last_cycles_unique(rows, (k - 1) as nat, prim, n);
        if forall|i: int| 0 <= i < k ==> !#[trigger] is_cell(rows[i], prim, n) {
            assert(!is_cell(rows[k - 1], prim, n));
            assert forall|i: int| 0 <= i < k - 1 implies !#[trigger] is_cell(rows[i], prim, n) by {}
        }
        assert forall|i: int| 0 <= i < k && #[trigger] is_cell(rows[i], prim, n) implies last_cycles(
            rows,
            k,
            prim,
            n,
        ) == Some(rows[i].cycles) by {
            if i < k - 1 && is_cell(rows[k - 1], prim, n) {
                assert(rows[i].primitive@ == rows[k - 1].primitive@);
            }
        }
    }
}

/// The Markdown table line of a row does not depend on the order of the
/// rows: when no two rows are the same (primitive, N) cell, reordering the
/// rows by a permutation `sigma` gives row `k` of the new table the line of
/// row `sigma[k]` of the old one, per-op cost included, whether the N=1 row
/// of its primitive stands before or after it.
pub proof fn lemma_md_line_order_free(rows: Seq<Row>, rows2: Seq<Row>, sigma: Seq<int>)
    requires
        cells_unique(rows),
        is_permutation(rows, rows2, sigma),
    ensures
        forall|k: int| 0 <= k < rows2.len() ==> #[trigger] md_line(rows2, rows2[k]) == md_line(rows, rows[sigma[k]]),
{
    assert forall|i: int, j: int| 0 <= i < j < rows2.len() implies !(#[trigger] rows2[i].primitive@
        == #[trigger] rows2[j].primitive@ && rows2[i].n == rows2[j].n) by {
        assert(rows2[i] == rows[sigma[i]]);
        assert(rows2[j] == rows[sigma[j]]);
        assert(sigma[i] != sigma[j]);
        if sigma[i] < sigma[j] {
            assert(!(rows[sigma[i]].primitive@ == rows[sigma[j]].primitive@ && rows[sigma[i]].n
                == rows[sigma[j]].n));
        } else {
            assert(!(rows[sigma[j]].primitive@ == rows[sigma[i]].primitive@ && rows[sigma[j]].n
                == rows[sigma[i]].n));
        }
    }
    assert forall|prim: Seq<char>, n: u32| #[trigger] last_cycles(rows2, rows2.len(), prim, n) == last_cycles(
        rows,
        rows.len(),
        prim,
        n,
    ) by {
        lemma_last_cycles_unique(rows, rows.len(), prim, n);
        lemma_last_cycles_unique(rows2, rows2.len(), prim, n);
        if exists|i: int| 0 <= i < rows.len() && #[trigger] is_cell(rows[i], prim, n) {
            let i = choose|i: int| 0 <= i < rows.len() && #[trigger] is_cell(rows[i], prim, n);
            assert(hits(sigma, i));
            let k = choose|k: int| 0 <= k < sigma.len() && #[trigger] sigma[k] == i;
            assert(rows2[k] == rows[sigma[k]]);
            assert(is_cell(rows2[k], prim, n));
        } else {
            assert forall|k: int| 0 <= k < rows2.len() implies !#[trigger] is_cell(rows2[k], prim, n) by {
                assert(rows2[k] == rows[sigma[k]]);
                assert(!is_cell(rows[sigma[k]], prim, n));
            }
        }
    }
    assert forall|k: int| 0 <= k < rows2.len() implies #[trigger] md_line(rows2, rows2[k]) == md_line(
        rows,
        rows[sigma[k]],
    ) by {
        let r = rows2[k];
        assert(r == rows[sigma[k]]);
        assert(last_cycles(rows2, rows2.len(), r.primitive@, 1) == last_cycles(rows, rows.len(), r.primitive@, 1));
        assert(last_cycles(rows2, rows2.len(), r.primitive@, 100) == last_cycles(
            rows,
            rows.len(),
            r.primitive@,
            100,
        ));
        assert(per_op_cycles(rows2, r) == per_op_cycles(rows, r));
    }
}

/// Only an N=100 line carries a per-op figure: the line of a row whose N is
/// not 100 ends in `| - |`, and it is the same whatever the other rows are.
pub proof fn lemma_per_op_only_at_hundred(rows: Seq<Row>, others: Seq<Row>, r: Row)
    requires
        r.n != 100,
    ensures
        per_op_cycles(rows, r) is None,
        md_line(rows, r) == md_line(others, r),
        exists|head: Seq<u8>| md_line(rows, r) == head + lit(" | - |\n"),
{
    reveal_strlit(" | ");
    reveal_strlit("-");
    reveal_strlit(" |\n");
    reveal_strlit(" | - |\n");
    vstd::string::is_ascii_spec_bytes(" | ");
    vstd::string::is_ascii_spec_bytes("-");
    vstd::string::is_ascii_spec_bytes(" |\n");
    vstd::string::is_ascii_spec_bytes(" | - |\n");
    assert(vstd::string::is_ascii(" | "));
    assert(vstd::string::is_ascii("-"));
    assert(vstd::string::is_ascii(" |\n"));
    assert(vstd::string::is_ascii(" | - |\n"));
    let head = lit("| ") + utf8(r.primitive@) + lit(" | ") + decimal(r.n as nat) + lit(" | ") + decimal(
        r.cycles as nat,
    ) + lit(" | ") + decimal(r.prover_gas as nat) + lit(" | ") + decimal(r.exec_ms_median as nat);
    assert(lit(" | ") + lit("-") + lit(" |\n") =~= lit(" | - |\n"));
    assert(md_line(rows, r) =~= head + lit(" | - |\n"));
}

/// The per-op figure of an N=100 line is (cycles at N=100 - cycles at N=1)
/// / 99 for its primitive, floored at zero, when both cells are in the
/// report (each at most once); without its N=1 cell the line shows `-`.
pub proof fn lemma_per_op_at_hundred(rows: Seq<Row>, r: Row, i1: int, i100: int)
    requires
        cells_unique(rows),
        r.n == 100,
        0 <= i100 < rows.len(),
        is_cell(rows[i100], r.primitive@, 100),
    ensures
        0 <= i1 < rows.len() && is_cell(rows[i1], r.primitive@, 1) ==> per_op_cycles(rows, r) == Some(
            (if rows[i100].cycles >= rows[i1].cycles {
                (rows[i100].cycles - rows[i1].cycles) as u64
            } else {
                0u64
            }) / 99,
        ),
        (forall|j: int| 0 <= j < rows.len() ==> !#[trigger] is_cell(rows[j], r.primitive@, 1)) ==> per_op_cycles(
            rows,
            r,
        ) is None,
{
    lemma_last_cycles_unique(rows, rows.len(), r.primitive@, 1);
    lemma_last_cycles_unique(rows, rows.len(), r.primitive@, 100);
}

} // verus!
