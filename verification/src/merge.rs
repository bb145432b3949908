//! The merge engine: several tables folded into one, keyed by timestamp.
//!
//! The canonical time column comes first, every other column follows in order
//! of first appearance, and rows come out in ascending order of their
//! timestamp text. Within one timestamp a present value is never replaced by a
//! missing one, and of two present values the one processed later stays.

use vstd::prelude::*;
use crate::headers::{find_slot, find_time_column, slot_of, time_column};
use crate::table::{names, rows_of, tables_of, CsvRecord, ProcessedData, Row, Table};
use crate::text::{is_time_name, lemma_less_connected, lemma_less_transitive, lex_less, names_time, text_eq, text_less};

verus! {

/// Why a merge produced no table.
#[derive(Debug, Clone, Copy, PartialEq, Eq)]
pub enum MergeError {
    /// No table was given.
    NoTables,
}

/// The name of the merged time column: the first time name among the primary
/// table's headers, else the literal "timestamp".
pub open spec fn canonical_name(headers: Seq<Seq<char>>) -> Seq<char> {
    match time_column(headers) {
        Some(k) => headers[k],
        None => "timestamp"@,
    }
}

/// The merged headers after the first `n` headers of one more table: a header
/// is appended unless it names the time axis or is already there up to ASCII
/// case.
pub open spec fn add_headers(global: Seq<Seq<char>>, local: Seq<Seq<char>>, n: int) -> Seq<Seq<char>>
    decreases n,
{
    if n <= 0 {
        global
    } else {
        let before = add_headers(global, local, n - 1);
        let name = local[n - 1];
        if is_time_name(name) || slot_of(before, name) < before.len() {
            before
        } else {
            before.push(name)
        }
    }
}

/// The merged headers after the first `n` tables.
pub open spec fn merged_headers(tables: Seq<Table>, n: int) -> Seq<Seq<char>>
    decreases n,
{
    if n <= 0 {
        seq![canonical_name(tables[0].headers)]
    } else {
        add_headers(merged_headers(tables, n - 1), tables[n - 1].headers, tables[n - 1].headers.len() as int)
    }
}

/// The merged column that a local column writes to: column 0 for a time name,
/// else the column of the same name up to ASCII case.
pub open spec fn slot_for(global: Seq<Seq<char>>, name: Seq<char>) -> int {
    if is_time_name(name) {
        0
    } else {
        slot_of(global, name)
    }
}

/// The merged column of each local column.
pub open spec fn slots_for(global: Seq<Seq<char>>, local: Seq<Seq<char>>) -> Seq<int> {
    Seq::new(local.len(), |c: int| slot_for(global, local[c]))
}

/// A merged row after the first `n` cells of a local row were written into
/// it: a present cell replaces what its column held, a missing cell or one
/// without a column changes nothing.
pub open spec fn overlay(target: Seq<Option<u64>>, values: Seq<Option<u64>>, slots: Seq<int>, n: int) -> Seq<
    Option<u64>,
>
    decreases n,
{
    if n <= 0 {
        target
    } else {
        let before = overlay(target, values, slots, n - 1);
        let c = n - 1;
        if c < values.len() && c < slots.len() && values[c] is Some && 0 <= slots[c] < before.len() {
            before.update(slots[c], values[c])
        } else {
            before
        }
    }
}

/// A merged row with every cell missing.
pub open spec fn no_values(width: nat) -> Seq<Option<u64>> {
    Seq::new(width, |i: int| None)
}

/// Whether a row's timestamp comes before `ts`.
pub open spec fn key_before(row: Row, ts: Seq<char>) -> bool {
    row.timestamp is Some && lex_less(row.timestamp->0, ts)
}

/// Index of the first row at or after `i` whose timestamp does not come
/// before `ts`.
pub open spec fn lower_bound(rows: Seq<Row>, ts: Seq<char>, i: int) -> int
    decreases rows.len() - i,
{
    if 0 <= i < rows.len() && key_before(rows[i], ts) {
        lower_bound(rows, ts, i + 1)
    } else {
        i
    }
}

/// The accumulator after one more row: a row without timestamp changes
/// nothing; a timestamp already there has the row written into its merged row;
/// a new timestamp gets a merged row of its own, in order.
pub open spec fn absorb(acc: Seq<Row>, row: Row, slots: Seq<int>, width: nat) -> Seq<Row> {
    match row.timestamp {
        None => acc,
        Some(ts) => {
            let p = lower_bound(acc, ts, 0);
            if p < acc.len() && acc[p].timestamp == Some(ts) {
                acc.update(
                    p,
                    Row {
                        timestamp: Some(ts),
                        values: overlay(acc[p].values, row.values, slots, row.values.len() as int),
                    },
                )
            } else {
                acc.insert(
                    p,
                    Row {
                        timestamp: Some(ts),
                        values: overlay(no_values(width), row.values, slots, row.values.len() as int),
                    },
                )
            }
        },
    }
}

/// The accumulator after the first `n` rows of a table.
pub open spec fn absorb_rows(acc: Seq<Row>, rows: Seq<Row>, slots: Seq<int>, width: nat, n: int) -> Seq<Row>
    decreases n,
{
    if n <= 0 {
        acc
    } else {
        absorb(absorb_rows(acc, rows, slots, width, n - 1), rows[n - 1], slots, width)
    }
}

/// The accumulator after the first `n` tables.
pub open spec fn merged_rows(tables: Seq<Table>, headers: Seq<Seq<char>>, n: int) -> Seq<Row>
    decreases n,
{
    if n <= 0 {
        Seq::empty()
    } else {
        absorb_rows(
            merged_rows(tables, headers, n - 1),
            tables[n - 1].rows,
            slots_for(headers, tables[n - 1].headers),
            headers.len(),
            tables[n - 1].rows.len() as int,
        )
    }
}

/// The merge of a non-empty list of tables.
pub open spec fn merged(tables: Seq<Table>) -> Table {
    let headers = merged_headers(tables, tables.len() as int);
    Table { headers, rows: merged_rows(tables, headers, tables.len() as int) }
}

/// Every row has a timestamp, and the timestamps strictly ascend.
pub open spec fn ascending(rows: Seq<Row>) -> bool {
    &&& forall|i: int| 0 <= i < rows.len() ==> (#[trigger] rows[i]).timestamp is Some
    &&& forall|i: int, j: int|
        0 <= i < j < rows.len() ==> lex_less((#[trigger] rows[i]).timestamp->0, (#[trigger] rows[j]).timestamp->0)
}

/// Every row holds `width` cells.
pub open spec fn all_wide(rows: Seq<Row>, width: nat) -> bool {
    forall|i: int| 0 <= i < rows.len() ==> (#[trigger] rows[i]).values.len() == width
}

/// The index view of a list of merged columns.
pub open spec fn ints(slots: Seq<usize>) -> Seq<int> {
    slots.map_values(|s: usize| s as int)
}

/// Writing cells keeps the width of the merged row.
pub proof fn lemma_overlay_len(target: Seq<Option<u64>>, values: Seq<Option<u64>>, slots: Seq<int>, n: int)
    ensures
        overlay(target, values, slots, n).len() == target.len(),
    decreases n,
{
    if n > 0 {
        lemma_overlay_len(target, values, slots, n - 1);
    }
}

/// A position with only earlier timestamps before it, and none at it, is the
/// lower bound.
pub proof fn lemma_lower_bound_at(rows: Seq<Row>, ts: Seq<char>, i: int, p: int)
    requires
        0 <= i <= p <= rows.len(),
        forall|j: int| i <= j < p ==> key_before(#[trigger] rows[j], ts),
        p < rows.len() ==> !key_before(rows[p], ts),
    ensures
        lower_bound(rows, ts, i) == p,
    decreases p - i,
{
    if i < p {
        lemma_lower_bound_at(rows, ts, i + 1, p);
    }
}

/// In an ascending accumulator the lower bound splits the rows: earlier
/// timestamps before it, later or equal ones from it on.
pub proof fn lemma_lower_bound_splits(rows: Seq<Row>, ts: Seq<char>, i: int)
    requires
        ascending(rows),
        0 <= i <= rows.len(),
    ensures
        i <= lower_bound(rows, ts, i) <= rows.len(),
        forall|j: int| i <= j < lower_bound(rows, ts, i) ==> key_before(#[trigger] rows[j], ts),
        forall|j: int| lower_bound(rows, ts, i) <= j < rows.len() ==> !key_before(#[trigger] rows[j], ts),
    decreases rows.len() - i,
{
    if i < rows.len() && key_before(rows[i], ts) {
        lemma_lower_bound_splits(rows, ts, i + 1);
    } else if i < rows.len() {
        assert forall|j: int| i <= j < rows.len() implies !key_before(#[trigger] rows[j], ts) by {
            if i < j && key_before(rows[j], ts) {
                lemma_less_transitive(rows[i].timestamp->0, rows[j].timestamp->0, ts);
            }
        }
    }
}

/// Absorbing a row keeps the accumulator ascending and its rows of one width.
pub proof fn lemma_absorb_keeps(acc: Seq<Row>, row: Row, slots: Seq<int>, width: nat)
    requires
        ascending(acc),
        all_wide(acc, width),
    ensures
        ascending(absorb(acc, row, slots, width)),
        all_wide(absorb(acc, row, slots, width), width),
{
    match row.timestamp {
        None => {},
        Some(ts) => {
            let p = lower_bound(acc, ts, 0);
            let out = absorb(acc, row, slots, width);
            lemma_lower_bound_splits(acc, ts, 0);
            if p < acc.len() && acc[p].timestamp == Some(ts) {
                lemma_overlay_len(acc[p].values, row.values, slots, row.values.len() as int);
                assert forall|i: int, j: int| 0 <= i < j < out.len() implies lex_less(
                    (#[trigger] out[i]).timestamp->0,
                    (#[trigger] out[j]).timestamp->0,
                ) by {
                    assert(out[i].timestamp == acc[i].timestamp);
                    assert(out[j].timestamp == acc[j].timestamp);
                }
            } else {
                lemma_overlay_len(no_values(width), row.values, slots, row.values.len() as int);
                assert forall|j: int| p <= j < acc.len() implies lex_less(ts, (#[trigger] acc[j]).timestamp->0) by {
                    let at = acc[p].timestamp->0;
                    if !lex_less(ts, at) {
                        lemma_less_connected(ts, at);
                    }
                    if p < j {
                        lemma_less_transitive(ts, at, acc[j].timestamp->0);
                    }
                }
                assert forall|i: int, j: int| 0 <= i < j < out.len() implies lex_less(
                    (#[trigger] out[i]).timestamp->0,
                    (#[trigger] out[j]).timestamp->0,
                ) by {
                    if j < p {
                        assert(out[i] == acc[i] && out[j] == acc[j]);
                    } else if j == p {
                        assert(out[i] == acc[i]);
                        assert(key_before(acc[i], ts));
                    } else if i < p {
                        assert(out[i] == acc[i] && out[j] == acc[j - 1]);
                    } else if i == p {
                        assert(out[j] == acc[j - 1]);
                    } else {
                        assert(out[i] == acc[i - 1] && out[j] == acc[j - 1]);
                    }
                }
                assert forall|i: int| 0 <= i < out.len() implies (#[trigger] out[i]).timestamp is Some
                    && out[i].values.len() == width by {
                    if i < p {
                        assert(out[i] == acc[i]);
                    } else if i > p {
                        assert(out[i] == acc[i - 1]);
                    }
                }
            }
        },
    }
}

/// Absorbing rows keeps the accumulator ascending and its rows of one width.
pub proof fn lemma_absorb_rows_keeps(acc: Seq<Row>, rows: Seq<Row>, slots: Seq<int>, width: nat, n: int)
    requires
        ascending(acc),
        all_wide(acc, width),
    ensures
        ascending(absorb_rows(acc, rows, slots, width, n)),
        all_wide(absorb_rows(acc, rows, slots, width, n), width),
    decreases n,
{
    if n > 0 {
        lemma_absorb_rows_keeps(acc, rows, slots, width, n - 1);
        lemma_absorb_keeps(absorb_rows(acc, rows, slots, width, n - 1), rows[n - 1], slots, width);
    }
}

/// The accumulator is ascending, and its rows as wide as the headers, after
/// any number of tables.
pub proof fn lemma_merged_rows_keep(tables: Seq<Table>, headers: Seq<Seq<char>>, n: int)
    ensures
        ascending(merged_rows(tables, headers, n)),
        all_wide(merged_rows(tables, headers, n), headers.len()),
    decreases n,
{
    if n > 0 {
        lemma_merged_rows_keep(tables, headers, n - 1);
        lemma_absorb_rows_keeps(
            merged_rows(tables, headers, n - 1),
            tables[n - 1].rows,
            slots_for(headers, tables[n - 1].headers),
            headers.len(),
            tables[n - 1].rows.len() as int,
        );
    }
}

/// The merged headers of a non-empty list of tables.
fn collect_headers(tables: &Vec<ProcessedData>) -> (out: Vec<String>)
    requires
        tables.len() > 0,
    ensures
        names(out@) == merged_headers(tables_of(tables@), tables.len() as int),
{
    let primary = &tables[0].headers;
    let name: String = match find_time_column(primary) {
        Some(k) => primary[k].clone(),
        None => "timestamp".to_owned(),
    };
    let mut out: Vec<String> = Vec::new();
    out.push(name);
    assert(tables_of(tables@)[0].headers == names(primary@));
    assert(names(out@) =~= merged_headers(tables_of(tables@), 0));
    let mut t: usize = 0;
    while t < tables.len()
        invariant
            t <= tables.len(),
            names(out@) == merged_headers(tables_of(tables@), t as int),
        decreases tables.len() - t,
    {
        let local = &tables[t].headers;
        let ghost before = names(out@);
        let mut c: usize = 0;
        while c < local.len()
            invariant
                c <= local.len(),
                names(out@) == add_headers(before, names(local@), c as int),
            decreases local.len() - c,
        {
            let header = &local[c];
            if !names_time(header.as_str()) && find_slot(&out, header.as_str()) >= out.len() {
                out.push(header.clone());
                assert(names(out@) =~= add_headers(before, names(local@), c as int).push(header@));
            }
            c = c + 1;
        }
        t = t + 1;
    }
    out
}

/// The merged column that each local column writes to.
pub fn column_slots(global: &Vec<String>, local: &Vec<String>) -> (slots: Vec<usize>)
    ensures
        ints(slots@) == slots_for(names(global@), names(local@)),
{
    let mut slots: Vec<usize> = Vec::new();
    let mut c: usize = 0;
    while c < local.len()
        invariant
            c <= local.len(),
            slots@.len() == c,
            forall|k: int| 0 <= k < c ==> (#[trigger] slots@[k]) as int == slot_for(names(global@), local@[k]@),
        decreases local.len() - c,
    {
        let header = &local[c];
        let slot: usize = if names_time(header.as_str()) {
            0
        } else {
            find_slot(global, header.as_str())
        };
        slots.push(slot);
        c = c + 1;
    }
    assert(ints(slots@) =~= slots_for(names(global@), names(local@)));
    slots
}

/// Writes the present cells of a local row into a merged row.
pub fn write_cells(target: &mut Vec<Option<u64>>, values: &Vec<Option<u64>>, slots: &Vec<usize>)
    ensures
        final(target)@ == overlay(old(target)@, values@, ints(slots@), values@.len() as int),
{
    let mut c: usize = 0;
    while c < values.len()
        invariant
            c <= values.len(),
            target@ == overlay(old(target)@, values@, ints(slots@), c as int),
        decreases values.len() - c,
    {
        if c < slots.len() && slots[c] < target.len() {
            match values[c] {
                Some(v) => {
                    target.set(slots[c], Some(v));
                },
                None => {},
            }
        }
        c = c + 1;
    }
}

/// A merged row with every cell missing.
pub fn missing_values(width: usize) -> (out: Vec<Option<u64>>)
    ensures
        out@ == no_values(width as nat),
{
    let mut out: Vec<Option<u64>> = Vec::new();
    let mut i: usize = 0;
    while i < width
        invariant
            i <= width,
            out@.len() == i,
            forall|k: int| 0 <= k < i ==> (#[trigger] out@[k]) is None,
        decreases width - i,
    {
        out.push(None);
        i = i + 1;
    }
    assert(out@ =~= no_values(width as nat));
    out
}

/// Where a timestamp stands, or would stand, in an ascending accumulator.
fn find_row(acc: &Vec<CsvRecord>, ts: &str) -> (p: usize)
    requires
        ascending(rows_of(acc@)),
    ensures
        p == lower_bound(rows_of(acc@), ts@, 0),
        p <= acc.len(),
{
    let ghost rows = rows_of(acc@);
    let mut lo: usize = 0;
    let mut hi: usize = acc.len();
    while lo < hi
        invariant
            lo <= hi <= acc.len(),
            rows == rows_of(acc@),
            ascending(rows),
            forall|j: int| 0 <= j < lo ==> key_before(#[trigger] rows[j], ts@),
            forall|j: int| hi <= j < rows.len() ==> !key_before(#[trigger] rows[j], ts@),
        decreases hi - lo,
    {
        let mid: usize = lo + (hi - lo) / 2;
        let before = match &acc[mid].timestamp {
            Some(at) => text_less(at.as_str(), ts),
            None => false,
        };
        assert(before == key_before(rows[mid as int], ts@));
        if before {
            assert forall|j: int| 0 <= j < mid + 1 implies key_before(#[trigger] rows[j], ts@) by {
                if j < mid {
                    lemma_less_transitive(rows[j].timestamp->0, rows[mid as int].timestamp->0, ts@);
                }
            }
            lo = mid + 1;
        } else {
            assert forall|j: int| mid <= j < rows.len() implies !key_before(#[trigger] rows[j], ts@) by {
                if mid < j && key_before(rows[j], ts@) {
                    lemma_less_transitive(rows[mid as int].timestamp->0, rows[j].timestamp->0, ts@);
                }
            }
            hi = mid;
        }
    }
    proof {
        lemma_lower_bound_at(rows, ts@, 0, lo as int);
    }
    lo
}

/// Folds one row into the accumulator.
fn absorb_row(acc: &mut Vec<CsvRecord>, row: &CsvRecord, slots: &Vec<usize>, width: usize)
    requires
        ascending(rows_of(old(acc)@)),
        all_wide(rows_of(old(acc)@), width as nat),
    ensures
        rows_of(final(acc)@) == absorb(rows_of(old(acc)@), row@, ints(slots@), width as nat),
        ascending(rows_of(final(acc)@)),
        all_wide(rows_of(final(acc)@), width as nat),
{
    proof {
        lemma_absorb_keeps(rows_of(acc@), row@, ints(slots@), width as nat);
    }
    match &row.timestamp {
        None => {},
        Some(ts) => {
            let p = find_row(acc, ts.as_str());
            let found = p < acc.len() && match &acc[p].timestamp {
                Some(at) => text_eq(at.as_str(), ts.as_str()),
                None => false,
            };
            if found {
                write_cells(&mut acc[p].values, &row.values, slots);
                assert(rows_of(acc@) =~= absorb(rows_of(old(acc)@), row@, ints(slots@), width as nat));
            } else {
                let mut target = missing_values(width);
                write_cells(&mut target, &row.values, slots);
                let merged_row = CsvRecord { timestamp: Some(ts.clone()), values: target };
                acc.insert(p, merged_row);
                assert(rows_of(acc@) =~= absorb(rows_of(old(acc)@), row@, ints(slots@), width as nat));
            }
        },
    }
}

/// Folds the rows of one table into the accumulator.
fn absorb_table(acc: &mut Vec<CsvRecord>, rows: &Vec<CsvRecord>, slots: &Vec<usize>, width: usize)
    requires
        ascending(rows_of(old(acc)@)),
        all_wide(rows_of(old(acc)@), width as nat),
    ensures
        rows_of(final(acc)@) == absorb_rows(
            rows_of(old(acc)@),
            rows_of(rows@),
            ints(slots@),
            width as nat,
            rows@.len() as int,
        ),
        ascending(rows_of(final(acc)@)),
        all_wide(rows_of(final(acc)@), width as nat),
{
    let mut r: usize = 0;
    while r < rows.len()
        invariant
            r <= rows.len(),
            ascending(rows_of(acc@)),
            all_wide(rows_of(acc@), width as nat),
            rows_of(acc@) == absorb_rows(rows_of(old(acc)@), rows_of(rows@), ints(slots@), width as nat, r as int),
        decreases rows.len() - r,
    {
        absorb_row(acc, &rows[r], slots, width);
        r = r + 1;
    }
}

/// Merges tables, given in file order, into one table keyed by timestamp.
///
/// Fails exactly when no table is given. Otherwise the result is `merged` of
/// the inputs: the canonical time column first, rows ascending by timestamp,
/// every row as wide as the headers.
pub fn merge_tables(tables: &Vec<ProcessedData>) -> (res: Result<ProcessedData, MergeError>)
    ensures
        tables@.len() == 0 <==> res is Err,
        res is Err ==> res == Err::<ProcessedData, MergeError>(MergeError::NoTables),
        res is Ok ==> res->Ok_0@ == merged(tables_of(tables@)),
        res is Ok ==> res->Ok_0@.well_formed(),
        res is Ok ==> ascending(res->Ok_0@.rows),
        res is Ok ==> res->Ok_0@.headers.len() > 0 && res->Ok_0@.headers[0] == canonical_name(
            tables_of(tables@)[0].headers,
        ),
{
    if tables.len() == 0 {
        return Err(MergeError::NoTables);
    }
    let headers = collect_headers(tables);
    let width: usize = headers.len();
    let mut acc: Vec<CsvRecord> = Vec::new();
    let ghost all = tables_of(tables@);
    let mut t: usize = 0;
    assert(rows_of(acc@) =~= merged_rows(all, names(headers@), 0));
    while t < tables.len()
        invariant
            t <= tables.len(),
            all == tables_of(tables@),
            width == headers@.len(),
            ascending(rows_of(acc@)),
            all_wide(rows_of(acc@), width as nat),
            rows_of(acc@) == merged_rows(all, names(headers@), t as int),
        decreases tables.len() - t,
    {
        let slots = column_slots(&headers, &tables[t].headers);
        absorb_table(&mut acc, &tables[t].rows, &slots, width);
        t = t + 1;
    }
    proof {
        lemma_merged_headers_start(all, tables.len() as int);
    }
    Ok(ProcessedData { headers, rows: acc })
}

/// The merged headers begin with the canonical time name, whatever follows.
pub proof fn lemma_merged_headers_start(tables: Seq<Table>, n: int)
    ensures
        merged_headers(tables, n).len() > 0,
        merged_headers(tables, n)[0] == canonical_name(tables[0].headers),
    decreases n,
{
    if n > 0 {
        lemma_merged_headers_start(tables, n - 1);
        lemma_add_headers_start(merged_headers(tables, n - 1), tables[n - 1].headers, tables[n - 1].headers.len() as int);
    }
}

/// Adding headers only appends.
pub proof fn lemma_add_headers_start(global: Seq<Seq<char>>, local: Seq<Seq<char>>, n: int)
    ensures
        add_headers(global, local, n).len() >= global.len(),
        forall|i: int| 0 <= i < global.len() ==> add_headers(global, local, n)[i] == #[trigger] global[i],
    decreases n,
{
    if n > 0 {
        lemma_add_headers_start(global, local, n - 1);
    }
}

} // verus!
