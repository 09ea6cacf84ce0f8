//! BOM templates: the `?key` placeholders of a spreadsheet template, their substitution in a
//! cell, and the plan of writes that fills a template with BOM rows.

use vstd::prelude::*;
use crate::bom::ExcelBomRow;
use crate::text::{chars_of, concat, concat_lists, contains_seq, contains_str, join, join_strs, replace_all, replace_str, str_eq, string_of, strs};

verus! {

/// Characters that may follow `?` in a key: ASCII letters and `_`.
pub open spec fn is_key_char(c: char) -> bool {
    let u = c as u32;
    (65 <= u <= 90) || (97 <= u <= 122) || u == 95
}

/// The number of key characters at the start of `s`.
pub open spec fn key_run(s: Seq<char>) -> nat
    decreases s.len(),
{
    if s.len() > 0 && is_key_char(s[0]) {
        1 + key_run(s.drop_first())
    } else {
        0
    }
}

/// The `?word` tokens of `s` (word: one or more ASCII letters or `_`), in order.
pub open spec fn template_keys(s: Seq<char>) -> Seq<Seq<char>>
    decreases s.len(),
{
    if s.len() == 0 {
        Seq::empty()
    } else {
        let rest = template_keys(s.drop_first());
        let n = key_run(s.drop_first());
        if s[0] == '?' && n > 0 {
            seq![s.take(1 + n as int)] + rest
        } else {
            rest
        }
    }
}

proof fn lemma_key_run_bound(s: Seq<char>)
    ensures
        key_run(s) <= s.len(),
        forall|k: int| 0 <= k < key_run(s) ==> is_key_char(#[trigger] s[k]),
        key_run(s) < s.len() ==> !is_key_char(s[key_run(s) as int]),
    decreases s.len(),
{
    if s.len() > 0 && is_key_char(s[0]) {
        lemma_key_run_bound(s.drop_first());
        assert forall|k: int| 0 <= k < key_run(s) implies is_key_char(#[trigger] s[k]) by {
            if k > 0 {
                assert(s[k] == s.drop_first()[k - 1]);
            }
        }
    }
}

proof fn lemma_key_run_of_scan(s: Seq<char>, n: int)
    requires
        0 <= n <= s.len(),
        forall|k: int| 0 <= k < n ==> is_key_char(#[trigger] s[k]),
        n == s.len() || !is_key_char(s[n]),
    ensures
        key_run(s) == n,
    decreases n,
{
    if n > 0 {
        assert forall|k: int| 0 <= k < n - 1 implies is_key_char(#[trigger] s.drop_first()[k]) by {
            assert(s.drop_first()[k] == s[k + 1]);
        }
        lemma_key_run_of_scan(s.drop_first(), n - 1);
    }
}

/// Key characters are never `?`, so a stretch of them adds no key.
proof fn lemma_template_keys_skip_run(s: Seq<char>, a: int, b: int)
    requires
        0 <= a <= b <= s.len(),
        forall|k: int| a <= k < b ==> is_key_char(#[trigger] s[k]),
    ensures
        template_keys(s.skip(a)) == template_keys(s.skip(b)),
    decreases b - a,
{
    if a < b {
        lemma_template_keys_skip_run(s, a + 1, b);
        let t = s.skip(a);
        assert(t.drop_first() =~= s.skip(a + 1));
        assert(t[0] == s[a]);
    }
}

/// Finds all `?word` tokens in `s`.
pub fn find_template_keys(s: &str) -> (keys: Vec<String>)
    ensures
        strs(keys@) == template_keys(s@),
{
    let v = chars_of(s);
    let mut keys: Vec<String> = Vec::new();
    let mut i: usize = 0;
    assert(v@.skip(0) =~= v@);
    while i < v.len()
        invariant
            i <= v.len(),
            template_keys(v@) == strs(keys@) + template_keys(v@.skip(i as int)),
        decreases v.len() - i,
    {
        let ghost t = v@.skip(i as int);
        if v[i] == '?' {
            let start = i;
            i += 1;
            while i < v.len() && is_key_char_exec(v[i])
                invariant
                    start < i <= v.len(),
                    forall|k: int| start + 1 <= k < i ==> is_key_char(#[trigger] v@[k]),
                decreases v.len() - i,
            {
                i += 1;
            }
            proof {
                let u = v@.skip(start + 1);
                assert(t.drop_first() =~= u);
                assert forall|k: int| 0 <= k < i - start - 1 implies is_key_char(#[trigger] u[k]) by {
                    assert(u[k] == v@[k + start + 1]);
                }
                if i < v.len() {
                    assert(u[i - start - 1] == v@[i as int]);
                }
                lemma_key_run_of_scan(u, i - start - 1);
                lemma_template_keys_skip_run(v@, start + 1, i as int);
            }
            if i > start + 1 {
                let mut key: Vec<char> = Vec::new();
                let mut k: usize = start;
                while k < i
                    invariant
                        start <= k <= i <= v.len(),
                        key@ == v@.subrange(start as int, k as int),
                    decreases i - k,
                {
                    key.push(v[k]);
                    k += 1;
                    assert(key@ =~= v@.subrange(start as int, k as int));
                }
                let ks = string_of(&key);
                let ghost before = keys@;
                keys.push(ks);
                proof {
                    assert(t.take(i - start) =~= v@.subrange(start as int, i as int));
                    assert(strs(keys@) =~= strs(before).push(key@));
                    assert(strs(before) + (seq![key@] + template_keys(v@.skip(i as int))) =~= strs(
                        keys@,
                    ) + template_keys(v@.skip(i as int)));
                }
            }
        } else {
            proof {
                assert(t.drop_first() =~= v@.skip(i + 1));
            }
            i += 1;
        }
    }
    assert(v@.skip(v.len() as int) =~= Seq::<char>::empty());
    assert(strs(keys@) + Seq::<Seq<char>>::empty() =~= strs(keys@));
    keys
}

/// Whether `c` may follow `?` in a key.
fn is_key_char_exec(c: char) -> (b: bool)
    ensures
        b == is_key_char(c),
{
    let u = c as u32;
    (65 <= u && u <= 90) || (97 <= u && u <= 122) || u == 95
}

/// The decimal digit for `d < 10`.
pub open spec fn digit_char(d: nat) -> char {
    ((48 + d) as u8) as char
}

/// The decimal text of `n`, as `usize::to_string` gives it.
pub open spec fn decimal_text(n: nat) -> Seq<char>
    decreases n,
{
    if n < 10 {
        seq![digit_char(n)]
    } else {
        decimal_text(n / 10) + seq![digit_char(n % 10)]
    }
}

/// The decimal text of `n`.
pub fn decimal_string(n: usize) -> (s: String)
    ensures
        s@ == decimal_text(n as nat),
{
    let mut rev: Vec<char> = Vec::new();
    let mut m: usize = n;
    // `rev` holds the digits below `m`, least significant first.
    assert(rev@.reverse() =~= Seq::<char>::empty());
    assert(decimal_text(n as nat) =~= decimal_text(m as nat) + rev@.reverse());
    while m >= 10
        invariant
            decimal_text(n as nat) == decimal_text(m as nat) + rev@.reverse(),
            m <= n,
        decreases m,
    {
        let d = m % 10;
        let c = ((48 + d) as u8) as char;
        let ghost old_rev = rev@;
        rev.push(c);
        proof {
            assert(rev@.reverse() =~= seq![c] + old_rev.reverse());
            assert(decimal_text(m as nat) == decimal_text((m / 10) as nat) + seq![c]);
            assert(decimal_text((m / 10) as nat) + seq![c] + old_rev.reverse() =~= decimal_text(
                (m / 10) as nat,
            ) + rev@.reverse());
        }
        m = m / 10;
    }
    let c = ((48 + m) as u8) as char;
    let mut out: Vec<char> = Vec::new();
    out.push(c);
    let mut k: usize = rev.len();
    while k > 0
        invariant
            k <= rev.len(),
            out@ == seq![c] + rev@.subrange(k as int, rev@.len() as int).reverse(),
        decreases k,
    {
        k -= 1;
        out.push(rev[k]);
        assert(out@ =~= seq![c] + rev@.subrange(k as int, rev@.len() as int).reverse());
    }
    assert(rev@.subrange(0, rev@.len() as int) =~= rev@);
    string_of(&out)
}

/// The column keys: replaced once per BOM row.
pub open spec fn is_column_key(k: Seq<char>) -> bool {
    ||| k == "?no"@
    ||| k == "?part_id"@
    ||| k == "?designators"@
    ||| k == "?qty"@
    ||| k == "?mfr"@
    ||| k == "?mpn"@
}

/// The scalar keys: replaced wherever they appear.
pub open spec fn is_scalar_key(k: Seq<char>) -> bool {
    ||| k == "?pcb_name"@
    ||| k == "?bom_version"@
    ||| k == "?design_variant"@
    ||| k == "?engineer"@
    ||| k == "?creation_date"@
}

/// Whether `k` is a column key.
pub fn is_column_key_str(k: &str) -> (b: bool)
    ensures
        b == is_column_key(k@),
{
    str_eq(k, "?no") || str_eq(k, "?part_id") || str_eq(k, "?designators") || str_eq(k, "?qty")
        || str_eq(k, "?mfr") || str_eq(k, "?mpn")
}

/// Whether `k` is a scalar key.
pub fn is_scalar_key_str(k: &str) -> (b: bool)
    ensures
        b == is_scalar_key(k@),
{
    str_eq(k, "?pcb_name") || str_eq(k, "?bom_version") || str_eq(k, "?design_variant") || str_eq(
        k,
        "?engineer",
    ) || str_eq(k, "?creation_date")
}

/// The values that scalar keys stand for.
pub struct ScalarValues {
    pub pcb_name: String,
    pub bom_version: String,
    pub design_variant: String,
    pub engineer: String,
    pub creation_date: String,
}

/// `s` with the scalar keys replaced by their values.
pub open spec fn scalar_subst(s: Seq<char>, v: ScalarValues) -> Seq<char> {
    let s1 = replace_all(s, "?pcb_name"@, v.pcb_name@);
    let s2 = replace_all(s1, "?bom_version"@, v.bom_version@);
    let s3 = replace_all(s2, "?design_variant"@, v.design_variant@);
    let s4 = replace_all(s3, "?engineer"@, v.engineer@);
    replace_all(s4, "?creation_date"@, v.creation_date@)
}

/// The designators as they stand in one cell.
pub open spec fn designators_text(row: ExcelBomRow) -> Seq<char> {
    join(strs(row.designators@), "; "@)
}

/// `s` with the column keys replaced by the fields of `row` (numbered `no`), or removed
/// when there is no row.
pub open spec fn column_subst(s: Seq<char>, row: Option<(ExcelBomRow, usize)>) -> Seq<char> {
    match row {
        Some((r, no)) => {
            let s1 = replace_all(s, "?no"@, decimal_text(no as nat));
            let s2 = replace_all(s1, "?part_id"@, r.part_id@);
            let s3 = replace_all(s2, "?designators"@, designators_text(r));
            let s4 = replace_all(s3, "?qty"@, decimal_text(r.qty as nat));
            let s5 = replace_all(s4, "?mfr"@, r.mfr@);
            replace_all(s5, "?mpn"@, r.mpn@)
        },
        None => {
            let e = Seq::<char>::empty();
            let s1 = replace_all(s, "?no"@, e);
            let s2 = replace_all(s1, "?part_id"@, e);
            let s3 = replace_all(s2, "?designators"@, e);
            let s4 = replace_all(s3, "?qty"@, e);
            let s5 = replace_all(s4, "?mfr"@, e);
            replace_all(s5, "?mpn"@, e)
        },
    }
}

/// The text of a template cell: scalar keys replaced, then column keys.
pub open spec fn cell_text(s: Seq<char>, row: Option<(ExcelBomRow, usize)>, v: ScalarValues) -> Seq<
    char,
> {
    column_subst(scalar_subst(s, v), row)
}

/// Replaces all known template keys in `s` with their values.
///
/// Column keys are replaced with the corresponding field of `bom_row` (and its number) when
/// given, or removed when `bom_row` is `None`. Scalar keys are always substituted.
pub fn apply_template_cell(s: &str, bom_row: Option<(&ExcelBomRow, usize)>, values: &ScalarValues) -> (r:
    String)
    ensures
        r@ == cell_text(
            s@,
            match bom_row {
                Some((row, no)) => Some((*row, no)),
                None => None,
            },
            *values,
        ),
{
    proof {
        reveal_strlit("?pcb_name");
        reveal_strlit("?bom_version");
        reveal_strlit("?design_variant");
        reveal_strlit("?engineer");
        reveal_strlit("?creation_date");
        reveal_strlit("?no");
        reveal_strlit("?part_id");
        reveal_strlit("?designators");
        reveal_strlit("?qty");
        reveal_strlit("?mfr");
        reveal_strlit("?mpn");
    }
    let s1 = replace_str(s, "?pcb_name", values.pcb_name.as_str());
    let s2 = replace_str(s1.as_str(), "?bom_version", values.bom_version.as_str());
    let s3 = replace_str(s2.as_str(), "?design_variant", values.design_variant.as_str());
    let s4 = replace_str(s3.as_str(), "?engineer", values.engineer.as_str());
    let s5 = replace_str(s4.as_str(), "?creation_date", values.creation_date.as_str());
    match bom_row {
        Some((row, no)) => {
            let no_text = decimal_string(no);
            let qty_text = decimal_string(row.qty);
            let designators = join_strs(&row.designators, "; ");
            let t1 = replace_str(s5.as_str(), "?no", no_text.as_str());
            let t2 = replace_str(t1.as_str(), "?part_id", row.part_id.as_str());
            let t3 = replace_str(t2.as_str(), "?designators", designators.as_str());
            let t4 = replace_str(t3.as_str(), "?qty", qty_text.as_str());
            let t5 = replace_str(t4.as_str(), "?mfr", row.mfr.as_str());
            replace_str(t5.as_str(), "?mpn", row.mpn.as_str())
        },
        None => {
            let t1 = replace_str(s5.as_str(), "?no", "");
            let t2 = replace_str(t1.as_str(), "?part_id", "");
            let t3 = replace_str(t2.as_str(), "?designators", "");
            let t4 = replace_str(t3.as_str(), "?qty", "");
            let t5 = replace_str(t4.as_str(), "?mfr", "");
            let r = replace_str(t5.as_str(), "?mpn", "");
            proof {
                reveal_strlit("");
                assert(""@ =~= Seq::<char>::empty());
            }
            r
        },
    }
}

/// A non-empty cell of a template sheet: its row, column and text.
pub struct TemplateCell {
    pub row: u32,
    pub col: u32,
    pub value: String,
}

/// A write of text into a cell. `mpn_column` marks cells that held `?mpn`: they are to be
/// left-aligned.
pub struct CellWrite {
    pub col: u32,
    pub row: u32,
    pub value: String,
    pub mpn_column: bool,
}

/// What filling a template does, in order: rewrite `cell_updates` (cells outside the
/// template row whose text changes) and the page header and footer; insert `inserted_rows`
/// rows below `template_row`; then write `row_writes`, one list per BOM row, into the rows
/// from `template_row` down.
pub struct TemplatePlan {
    pub template_row: u32,
    pub cell_updates: Vec<CellWrite>,
    pub header: String,
    pub footer: String,
    pub inserted_rows: u32,
    pub row_writes: Vec<Vec<CellWrite>>,
}

/// The view of a cell write: column, row, text, whether it is in the MPN column.
pub open spec fn write_view(w: CellWrite) -> (u32, u32, Seq<char>, bool) {
    (w.col, w.row, w.value@, w.mpn_column)
}

/// The views of cell writes, in order.
pub open spec fn writes_view(ws: Seq<CellWrite>) -> Seq<(u32, u32, Seq<char>, bool)> {
    ws.map_values(|w: CellWrite| write_view(w))
}

/// The keys of one cell, each with the cell's row.
pub open spec fn cell_keys(c: TemplateCell) -> Seq<(u32, Seq<char>)> {
    template_keys(c.value@).map_values(|k: Seq<char>| (c.row, k))
}

/// The keys of all cells, in cell order, each with its row.
pub open spec fn keys_of_cells(cells: Seq<TemplateCell>) -> Seq<(u32, Seq<char>)>
    decreases cells.len(),
{
    if cells.len() == 0 {
        Seq::empty()
    } else {
        cell_keys(cells[0]) + keys_of_cells(cells.drop_first())
    }
}

/// The message for column keys found in two rows.
pub open spec fn rows_message(a: u32, b: u32) -> Seq<char> {
    "Column keys must all be in the same row (found in rows "@ + decimal_text(a as nat) + " and "@
        + decimal_text(b as nat) + ")"@
}

/// The message for a key that is neither a scalar key nor a column key.
pub open spec fn unknown_key_message(k: Seq<char>) -> Seq<char> {
    "Unknown template key: "@ + k
}

/// The message for a template without column keys.
pub open spec fn missing_column_key_message() -> Seq<char> {
    "Template must contain at least one column key: ?no, ?part_id, ?designators, ?qty, ?mfr, ?mpn"@
}

/// The check of the cell keys, in order: every key is known, and all column keys stand in one
/// row. `found` is the row of the column keys seen so far; the result is the row of all of
/// them, or the message for the first offending key.
pub open spec fn scan_keys(ks: Seq<(u32, Seq<char>)>, found: Option<u32>) -> Result<
    Option<u32>,
    Seq<char>,
>
    decreases ks.len(),
{
    if ks.len() == 0 {
        Ok(found)
    } else {
        let (row, k) = ks[0];
        if is_column_key(k) {
            if found is Some && found->0 != row {
                Err(rows_message(found->0, row))
            } else {
                scan_keys(ks.drop_first(), Some(row))
            }
        } else if !is_scalar_key(k) {
            Err(unknown_key_message(k))
        } else {
            scan_keys(ks.drop_first(), found)
        }
    }
}

/// The first key that is neither a column key nor a scalar key.
pub open spec fn first_unknown(ks: Seq<Seq<char>>) -> Option<Seq<char>>
    decreases ks.len(),
{
    if ks.len() == 0 {
        None
    } else if !is_column_key(ks[0]) && !is_scalar_key(ks[0]) {
        Some(ks[0])
    } else {
        first_unknown(ks.drop_first())
    }
}

/// The rewrites of the cells outside row `t` whose text changes.
pub open spec fn cell_updates(cells: Seq<TemplateCell>, t: u32, v: ScalarValues) -> Seq<
    (u32, u32, Seq<char>, bool),
>
    decreases cells.len(),
{
    if cells.len() == 0 {
        Seq::empty()
    } else {
        let rest = cell_updates(cells.drop_last(), t, v);
        let c = cells.last();
        let new = cell_text(c.value@, None, v);
        if c.row != t && new != c.value@ {
            rest.push((c.col, c.row, new, false))
        } else {
            rest
        }
    }
}

/// The cells of row `t`, in order.
pub open spec fn row_cells(cells: Seq<TemplateCell>, t: u32) -> Seq<TemplateCell>
    decreases cells.len(),
{
    if cells.len() == 0 {
        Seq::empty()
    } else {
        let rest = row_cells(cells.drop_last(), t);
        if cells.last().row == t {
            rest.push(cells.last())
        } else {
            rest
        }
    }
}

/// The BOM row written into target row `i`, numbered from 1; none when there are no rows.
pub open spec fn bom_row_at(rows: Seq<ExcelBomRow>, i: int) -> Option<(ExcelBomRow, usize)> {
    if rows.len() == 0 {
        None
    } else {
        Some((rows[i], (i + 1) as usize))
    }
}

/// `plan` fills the template whose cells are `cells` and whose template row is `t`.
pub open spec fn plan_matches(
    cells: Seq<TemplateCell>,
    header: Seq<char>,
    footer: Seq<char>,
    rows: Seq<ExcelBomRow>,
    v: ScalarValues,
    t: u32,
    plan: TemplatePlan,
) -> bool {
    let tc = row_cells(cells, t);
    let targets = if rows.len() == 0 {
        1
    } else {
        rows.len() as int
    };
    &&& plan.template_row == t
    &&& writes_view(plan.cell_updates@) == cell_updates(cells, t, v)
    &&& plan.header@ == cell_text(header, None, v)
    &&& plan.footer@ == cell_text(footer, None, v)
    &&& plan.inserted_rows == (if rows.len() > 1 {
        (rows.len() - 1) as u32
    } else {
        0u32
    })
    &&& plan.row_writes@.len() == targets
    &&& forall|i: int|
        0 <= i < targets ==> {
            &&& (#[trigger] plan.row_writes@[i])@.len() == tc.len()
            &&& forall|k: int|
                0 <= k < tc.len() ==> write_view(#[trigger] plan.row_writes@[i]@[k]) == (
                    tc[k].col,
                    (t + i) as u32,
                    cell_text(tc[k].value@, bom_row_at(rows, i), v),
                    contains_seq(tc[k].value@, "?mpn"@),
                )
        }
}

proof fn lemma_keys_of_cells_skip(cells: Seq<TemplateCell>, i: int)
    requires
        0 <= i < cells.len(),
    ensures
        keys_of_cells(cells.skip(i)) == cell_keys(cells[i]) + keys_of_cells(cells.skip(i + 1)),
{
    assert(cells.skip(i).drop_first() =~= cells.skip(i + 1));
    assert(cells.skip(i)[0] == cells[i]);
}

/// The row of the column keys, after checking every key of every cell.
fn check_cell_keys(cells: &Vec<TemplateCell>) -> (r: Result<Option<u32>, String>)
    ensures
        match scan_keys(keys_of_cells(cells@), None) {
            Ok(f) => r == Ok::<Option<u32>, String>(f),
            Err(m) => r matches Err(e) && e@ == m,
        },
{
    let mut found: Option<u32> = None;
    let mut i: usize = 0;
    assert(cells@.skip(0) =~= cells@);
    while i < cells.len()
        invariant
            i <= cells.len(),
            scan_keys(keys_of_cells(cells@), None) == scan_keys(
                keys_of_cells(cells@.skip(i as int)),
                found,
            ),
        decreases cells.len() - i,
    {
        proof {
            lemma_keys_of_cells_skip(cells@, i as int);
        }
        let cell = &cells[i];
        let keys = find_template_keys(cell.value.as_str());
        let ghost x = cell_keys(*cell);
        let ghost rest = keys_of_cells(cells@.skip(i + 1));
        let mut j: usize = 0;
        assert(x.skip(0) =~= x);
        while j < keys.len()
            invariant
                j <= keys.len(),
                strs(keys@) == template_keys(cell.value@),
                x == cell_keys(*cell),
                x.len() == keys.len(),
                scan_keys(keys_of_cells(cells@), None) == scan_keys(x.skip(j as int) + rest, found),
            decreases keys.len() - j,
        {
            let ghost remaining = x.skip(j as int) + rest;
            assert(remaining[0] == (cell.row, keys@[j as int]@));
            assert(remaining.drop_first() =~= x.skip(j + 1) + rest);
            let k = keys[j].as_str();
            if is_column_key_str(k) {
                match found {
                    Some(r) => {
                        if r != cell.row {
                            let a = decimal_string(r as usize);
                            let b = decimal_string(cell.row as usize);
                            let m1 = concat(
                                "Column keys must all be in the same row (found in rows ",
                                a.as_str(),
                            );
                            let m2 = concat(m1.as_str(), " and ");
                            let m3 = concat(m2.as_str(), b.as_str());
                            let m4 = concat(m3.as_str(), ")");
                            return Err(m4);
                        }
                    },
                    None => {},
                }
                found = Some(cell.row);
            } else if !is_scalar_key_str(k) {
                return Err(concat("Unknown template key: ", k));
            }
            j += 1;
        }
        assert(x.skip(j as int) + rest =~= rest);
        i += 1;
    }
    assert(keys_of_cells(cells@.skip(i as int)) =~= Seq::<(u32, Seq<char>)>::empty()) by {
        assert(cells@.skip(i as int).len() == 0);
    }
    Ok(found)
}

/// The first key of `keys` that is neither a column key nor a scalar key.
fn first_unknown_key(keys: &Vec<String>) -> (r: Option<String>)
    ensures
        match first_unknown(strs(keys@)) {
            Some(k) => r matches Some(s) && s@ == k,
            None => r is None,
        },
{
    let mut i: usize = 0;
    assert(strs(keys@).skip(0) =~= strs(keys@));
    while i < keys.len()
        invariant
            i <= keys.len(),
            first_unknown(strs(keys@)) == first_unknown(strs(keys@).skip(i as int)),
        decreases keys.len() - i,
    {
        let ghost t = strs(keys@).skip(i as int);
        assert(t[0] == keys@[i as int]@);
        assert(t.drop_first() =~= strs(keys@).skip(i + 1));
        if !is_column_key_str(keys[i].as_str()) && !is_scalar_key_str(keys[i].as_str()) {
            return Some(keys[i].clone());
        }
        i += 1;
    }
    assert(strs(keys@).skip(i as int) =~= Seq::<Seq<char>>::empty());
    None
}

/// A copy of a template cell.
fn copy_cell(c: &TemplateCell) -> (r: TemplateCell)
    ensures
        r.row == c.row && r.col == c.col && r.value == c.value,
{
    TemplateCell { row: c.row, col: c.col, value: c.value.clone() }
}

/// The checks and writes that fill a BOM template.
///
/// `cells` are the non-empty cells of the template sheet in row-major order, `header` and
/// `footer` its page header and footer. Every `?key` must be a scalar key (`?pcb_name`,
/// `?bom_version`, `?design_variant`, `?engineer`, `?creation_date`) or a column key (`?no`,
/// `?part_id`, `?designators`, `?qty`, `?mfr`, `?mpn`), all column keys must stand in one
/// row, and there must be at least one; otherwise the message for the first offence is
/// returned. The row holding the column keys is repeated once per BOM row (kept once, with
/// the column keys removed, when there are none); every other cell, the header and the
/// footer get the scalar values.
pub fn plan_bom_template(
    cells: &Vec<TemplateCell>,
    header: &str,
    footer: &str,
    rows: &Vec<ExcelBomRow>,
    values: &ScalarValues,
) -> (r: Result<TemplatePlan, String>)
    requires
        first_unknown(template_keys(header@) + template_keys(footer@)) is None ==> match scan_keys(
            keys_of_cells(cells@),
            None,
        ) {
            Ok(Some(t)) => t + rows@.len() <= u32::MAX + 1,
            _ => true,
        },
    ensures
        match scan_keys(keys_of_cells(cells@), None) {
            Err(m) => r matches Err(e) && e@ == m,
            Ok(found) => match first_unknown(template_keys(header@) + template_keys(footer@)) {
                Some(k) => r matches Err(e) && e@ == unknown_key_message(k),
                None => match found {
                    None => r matches Err(e) && e@ == missing_column_key_message(),
                    Some(t) => r matches Ok(plan) && plan_matches(
                        cells@,
                        header@,
                        footer@,
                        rows@,
                        *values,
                        t,
                        plan,
                    ),
                },
            },
        },
{
    let found = match check_cell_keys(cells) {
        Err(e) => {
            return Err(e);
        },
        Ok(f) => f,
    };
    let hk = find_template_keys(header);
    let fk = find_template_keys(footer);
    let hf = concat_lists(&hk, &fk);
    match first_unknown_key(&hf) {
        Some(k) => {
            return Err(concat("Unknown template key: ", k.as_str()));
        },
        None => {},
    }
    let t = match found {
        None => {
            return Err(
                String::from_str(
                    "Template must contain at least one column key: ?no, ?part_id, ?designators, ?qty, ?mfr, ?mpn",
                ),
            );
        },
        Some(t) => t,
    };
    // Scalar substitutions outside the template row.
    let mut updates: Vec<CellWrite> = Vec::new();
    let mut i: usize = 0;
    assert(writes_view(updates@) =~= cell_updates(cells@.take(0), t, *values));
    while i < cells.len()
        invariant
            i <= cells.len(),
            writes_view(updates@) == cell_updates(cells@.take(i as int), t, *values),
        decreases cells.len() - i,
    {
        assert(cells@.take(i + 1).drop_last() =~= cells@.take(i as int));
        let cell = &cells[i];
        let new_val = apply_template_cell(cell.value.as_str(), None, values);
        if cell.row != t && !str_eq(new_val.as_str(), cell.value.as_str()) {
            updates.push(CellWrite { col: cell.col, row: cell.row, value: new_val, mpn_column: false });
            assert(writes_view(updates@) =~= cell_updates(cells@.take(i + 1), t, *values));
        } else {
            assert(writes_view(updates@) =~= cell_updates(cells@.take(i + 1), t, *values));
        }
        i += 1;
    }
    assert(cells@.take(cells.len() as int) =~= cells@);
    let new_header = apply_template_cell(header, None, values);
    let new_footer = apply_template_cell(footer, None, values);
    // The cells of the template row.
    let mut tc: Vec<TemplateCell> = Vec::new();
    let mut i: usize = 0;
    while i < cells.len()
        invariant
            i <= cells.len(),
            tc@.len() == row_cells(cells@.take(i as int), t).len(),
            forall|k: int|
                0 <= k < tc@.len() ==> {
                    &&& (#[trigger] tc@[k]).row == row_cells(cells@.take(i as int), t)[k].row
                    &&& tc@[k].col == row_cells(cells@.take(i as int), t)[k].col
                    &&& tc@[k].value == row_cells(cells@.take(i as int), t)[k].value
                },
        decreases cells.len() - i,
    {
        assert(cells@.take(i + 1).drop_last() =~= cells@.take(i as int));
        if cells[i].row == t {
            tc.push(copy_cell(&cells[i]));
        }
        i += 1;
    }
    assert(cells@.take(cells.len() as int) =~= cells@);
    let ghost tcs = row_cells(cells@, t);
    let inserted: u32 = if rows.len() > 1 {
        (rows.len() - 1) as u32
    } else {
        0
    };
    let targets: usize = if rows.len() == 0 {
        1
    } else {
        rows.len()
    };
    let mut writes: Vec<Vec<CellWrite>> = Vec::new();
    let mut i: usize = 0;
    while i < targets
        invariant
            i <= targets,
            targets == (if rows@.len() == 0 {
                1
            } else {
                rows@.len() as int
            }),
            t + targets <= u32::MAX + 1,
            tc@.len() == tcs.len(),
            forall|k: int|
                0 <= k < tc@.len() ==> {
                    &&& (#[trigger] tc@[k]).row == tcs[k].row
                    &&& tc@[k].col == tcs[k].col
                    &&& tc@[k].value == tcs[k].value
                },
            writes@.len() == i,
            forall|a: int|
                0 <= a < i ==> {
                    &&& (#[trigger] writes@[a])@.len() == tcs.len()
                    &&& forall|k: int|
                        0 <= k < tcs.len() ==> write_view(#[trigger] writes@[a]@[k]) == (
                            tcs[k].col,
                            (t + a) as u32,
                            cell_text(tcs[k].value@, bom_row_at(rows@, a), *values),
                            contains_seq(tcs[k].value@, "?mpn"@),
                        )
                },
        decreases targets - i,
    {
        let target_row: u32 = t + i as u32;
        let mut line: Vec<CellWrite> = Vec::new();
        let mut k: usize = 0;
        while k < tc.len()
            invariant
                k <= tc.len(),
                i < targets,
                targets == (if rows@.len() == 0 {
                    1
                } else {
                    rows@.len() as int
                }),
                target_row == (t + i) as u32,
                tc@.len() == tcs.len(),
                forall|q: int|
                    0 <= q < tc@.len() ==> {
                        &&& (#[trigger] tc@[q]).row == tcs[q].row
                        &&& tc@[q].col == tcs[q].col
                        &&& tc@[q].value == tcs[q].value
                    },
                line@.len() == k,
                forall|q: int|
                    0 <= q < k ==> write_view(#[trigger] line@[q]) == (
                        tcs[q].col,
                        (t + i) as u32,
                        cell_text(tcs[q].value@, bom_row_at(rows@, i as int), *values),
                        contains_seq(tcs[q].value@, "?mpn"@),
                    ),
            decreases tc.len() - k,
        {
            let src = &tc[k];
            let new_val = if rows.len() == 0 {
                apply_template_cell(src.value.as_str(), None, values)
            } else {
                apply_template_cell(src.value.as_str(), Some((&rows[i], i + 1)), values)
            };
            let is_mpn = contains_str(src.value.as_str(), "?mpn");
            line.push(CellWrite { col: src.col, row: target_row, value: new_val, mpn_column: is_mpn });
            k += 1;
        }
        writes.push(line);
        i += 1;
    }
    Ok(
        TemplatePlan {
            template_row: t,
            cell_updates: updates,
            header: new_header,
            footer: new_footer,
            inserted_rows: inserted,
            row_writes: writes,
        },
    )
}

/// A cell of the default BOM sheet: text, or a number when `number` is `Some`.
pub struct SheetCell {
    pub col: u32,
    pub row: u32,
    pub text: String,
    pub number: Option<usize>,
    pub left_align: bool,
}

/// The view of a default-sheet cell: column, row, text, number, left alignment.
pub open spec fn sheet_cell_view(c: SheetCell) -> (u32, u32, Seq<char>, Option<usize>, bool) {
    (c.col, c.row, c.text@, c.number, c.left_align)
}

/// The header of the default sheet.
pub open spec fn default_header(col: int) -> Seq<char> {
    if col == 1 {
        "part_id"@
    } else if col == 2 {
        "designators"@
    } else if col == 3 {
        "qty"@
    } else if col == 4 {
        "mfr"@
    } else {
        "mpn"@
    }
}

/// Cell `k` (0 to 4) of the data row of `row`, in sheet row `r`: part, designators,
/// quantity as a number, manufacturers, MPNs; the quantity and MPN columns left-aligned.
pub open spec fn default_data_cell(row: ExcelBomRow, r: u32, k: int) -> (
    u32,
    u32,
    Seq<char>,
    Option<usize>,
    bool,
) {
    if k == 0 {
        (1u32, r, row.part_id@, None, false)
    } else if k == 1 {
        (2u32, r, designators_text(row), None, false)
    } else if k == 2 {
        (3u32, r, Seq::empty(), Some(row.qty), true)
    } else if k == 3 {
        (4u32, r, row.mfr@, None, false)
    } else {
        (5u32, r, row.mpn@, None, true)
    }
}

/// The cells of the BOM sheet written when no template is set: a header row, then one row
/// per BOM row from the second sheet row down.
pub fn default_sheet_cells(rows: &Vec<ExcelBomRow>) -> (cells: Vec<SheetCell>)
    requires
        rows@.len() + 1 <= u32::MAX,
    ensures
        cells@.len() == 5 + 5 * rows@.len(),
        forall|c: int|
            0 <= c < 5 ==> sheet_cell_view(#[trigger] cells@[c]) == (
                (c + 1) as u32,
                1u32,
                default_header(c + 1),
                None::<usize>,
                false,
            ),
        forall|i: int, k: int|
            0 <= i < rows@.len() && 0 <= k < 5 ==> sheet_cell_view(#[trigger] cells@[5 + 5 * i + k])
                == default_data_cell(rows@[i], (i + 2) as u32, k),
{
    let mut cells: Vec<SheetCell> = Vec::new();
    let names = ["part_id", "designators", "qty", "mfr", "mpn"];
    let mut c: usize = 0;
    while c < 5
        invariant
            c <= 5,
            cells@.len() == c,
            names@ == seq!["part_id", "designators", "qty", "mfr", "mpn"],
            forall|q: int|
                0 <= q < c ==> sheet_cell_view(#[trigger] cells@[q]) == (
                    (q + 1) as u32,
                    1u32,
                    default_header(q + 1),
                    None::<usize>,
                    false,
                ),
        decreases 5 - c,
    {
        cells.push(
            SheetCell {
                col: (c + 1) as u32,
                row: 1,
                text: String::from_str(names[c]),
                number: None,
                left_align: false,
            },
        );
        c += 1;
    }
    let mut i: usize = 0;
    while i < rows.len()
        invariant
            i <= rows@.len(),
            rows@.len() + 1 <= u32::MAX,
            cells@.len() == 5 + 5 * i,
            forall|q: int|
                0 <= q < 5 ==> sheet_cell_view(#[trigger] cells@[q]) == (
                    (q + 1) as u32,
                    1u32,
                    default_header(q + 1),
                    None::<usize>,
                    false,
                ),
            forall|a: int, k: int|
                0 <= a < i && 0 <= k < 5 ==> sheet_cell_view(#[trigger] cells@[5 + 5 * a + k])
                    == default_data_cell(rows@[a], (a + 2) as u32, k),
        decreases rows@.len() - i,
    {
        let row = &rows[i];
        let r: u32 = (i + 2) as u32;
        let ghost before = cells@;
        cells.push(SheetCell { col: 1, row: r, text: row.part_id.clone(), number: None, left_align: false });
        cells.push(
            SheetCell {
                col: 2,
                row: r,
                text: join_strs(&row.designators, "; "),
                number: None,
                left_align: false,
            },
        );
        cells.push(SheetCell { col: 3, row: r, text: String::new(), number: Some(row.qty), left_align: true });
        cells.push(SheetCell { col: 4, row: r, text: row.mfr.clone(), number: None, left_align: false });
        cells.push(SheetCell { col: 5, row: r, text: row.mpn.clone(), number: None, left_align: true });
        proof {
            reveal_strlit("; ");
            assert forall|a: int, k: int|
                0 <= a < i + 1 && 0 <= k < 5 implies sheet_cell_view(#[trigger] cells@[5 + 5 * a + k])
                == default_data_cell(rows@[a], (a + 2) as u32, k) by {
                if a < i {
                    assert(cells@[5 + 5 * a + k] == before[5 + 5 * a + k]);
                }
            }
        }
        i += 1;
    }
    cells
}

/// A pattern that starts with `?` is found nowhere in a text without `?`.
proof fn lemma_replace_absent(s: Seq<char>, pat: Seq<char>, rep: Seq<char>)
    requires
        pat.len() > 0,
        pat[0] == '?',
        forall|i: int| 0 <= i < s.len() ==> s[i] != '?',
    ensures
        replace_all(s, pat, rep) == s,
    decreases s.len(),
{
    if s.len() > 0 {
        assert(!pat.is_prefix_of(s)) by {
            assert(s[0] != pat[0]);
        }
        assert forall|i: int| 0 <= i < s.drop_first().len() implies s.drop_first()[i] != '?' by {
            assert(s.drop_first()[i] == s[i + 1]);
        }
        lemma_replace_absent(s.drop_first(), pat, rep);
        assert(seq![s[0]] + s.drop_first() =~= s);
    }
}

/// A template cell without `?` keeps its text, whichever row and values fill the template.
pub proof fn lemma_plain_cell_unchanged(s: Seq<char>, row: Option<(ExcelBomRow, usize)>, v: ScalarValues)
    requires
        forall|i: int| 0 <= i < s.len() ==> s[i] != '?',
    ensures
        cell_text(s, row, v) == s,
{
    reveal_strlit("?pcb_name");
    reveal_strlit("?bom_version");
    reveal_strlit("?design_variant");
    reveal_strlit("?engineer");
    reveal_strlit("?creation_date");
    reveal_strlit("?no");
    reveal_strlit("?part_id");
    reveal_strlit("?designators");
    reveal_strlit("?qty");
    reveal_strlit("?mfr");
    reveal_strlit("?mpn");
    let e = Seq::<char>::empty();
    lemma_replace_absent(s, "?pcb_name"@, v.pcb_name@);
    lemma_replace_absent(s, "?bom_version"@, v.bom_version@);
    lemma_replace_absent(s, "?design_variant"@, v.design_variant@);
    lemma_replace_absent(s, "?engineer"@, v.engineer@);
    lemma_replace_absent(s, "?creation_date"@, v.creation_date@);
    match row {
        Some((r, no)) => {
            lemma_replace_absent(s, "?no"@, decimal_text(no as nat));
            lemma_replace_absent(s, "?part_id"@, r.part_id@);
            lemma_replace_absent(s, "?designators"@, designators_text(r));
            lemma_replace_absent(s, "?qty"@, decimal_text(r.qty as nat));
            lemma_replace_absent(s, "?mfr"@, r.mfr@);
            lemma_replace_absent(s, "?mpn"@, r.mpn@);
        },
        None => {
            lemma_replace_absent(s, "?no"@, e);
            lemma_replace_absent(s, "?part_id"@, e);
            lemma_replace_absent(s, "?designators"@, e);
            lemma_replace_absent(s, "?qty"@, e);
            lemma_replace_absent(s, "?mfr"@, e);
            lemma_replace_absent(s, "?mpn"@, e);
        },
    }
}

} // verus!
