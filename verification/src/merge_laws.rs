//! Laws of the merge engine.

use vstd::prelude::*;
use crate::headers::{lemma_slot_of, lemma_time_column, slot_of, slot_of_from, time_column};
use crate::merge::{
    absorb, absorb_rows, add_headers, all_wide, ascending, canonical_name, key_before, lemma_absorb_rows_keeps,
    lemma_lower_bound_at, lemma_lower_bound_splits, lemma_merged_headers_start, lemma_merged_rows_keep,
    lemma_overlay_len, lower_bound, merged, merged_headers, merged_rows, no_values, overlay, slot_for, slots_for,
};
use crate::table::{Row, Table};
use crate::text::{folded, is_time_name, lemma_less_irreflexive, lex_less, same_name};

verus! {

/// Whatever is merged, every row of the result is as wide as its headers, the
/// rows ascend by timestamp, and the first header is the canonical time name.
pub proof fn law_merged_is_well_formed(tables: Seq<Table>)
    ensures
        merged(tables).well_formed(),
        ascending(merged(tables).rows),
        merged(tables).headers.len() > 0,
        merged(tables).headers[0] == canonical_name(tables[0].headers),
{
    let n = tables.len() as int;
    lemma_merged_rows_keep(tables, merged_headers(tables, n), n);
    lemma_merged_headers_start(tables, n);
}

/// Whether some row carries the timestamp.
pub open spec fn has_stamp(rows: Seq<Row>, ts: Seq<char>) -> bool {
    exists|i: int| 0 <= i < rows.len() && (#[trigger] rows[i]).timestamp == Some(ts)
}

/// Whether some of the first `n` rows carries the timestamp.
pub open spec fn has_stamp_before(rows: Seq<Row>, n: int, ts: Seq<char>) -> bool {
    exists|i: int| 0 <= i < n && i < rows.len() && (#[trigger] rows[i]).timestamp == Some(ts)
}

/// Every row has a timestamp, and no two rows have the same.
pub open spec fn stamped_apart(rows: Seq<Row>) -> bool {
    &&& forall|i: int| 0 <= i < rows.len() ==> (#[trigger] rows[i]).timestamp is Some
    &&& forall|i: int, j: int|
        0 <= i < j < rows.len() ==> (#[trigger] rows[i]).timestamp != (#[trigger] rows[j]).timestamp
}

/// No timestamp occurs in both lists of rows.
pub open spec fn disjoint_stamps(a: Seq<Row>, b: Seq<Row>) -> bool {
    forall|i: int, j: int|
        0 <= i < a.len() && 0 <= j < b.len() ==> (#[trigger] a[i]).timestamp != (#[trigger] b[j]).timestamp
}

/// In an ascending accumulator the lower bound of a timestamp that is there is
/// its row.
pub proof fn lemma_lower_bound_finds(acc: Seq<Row>, ts: Seq<char>, i: int)
    requires
        ascending(acc),
        0 <= i < acc.len(),
        acc[i].timestamp == Some(ts),
    ensures
        lower_bound(acc, ts, 0) == i,
{
    assert forall|j: int| 0 <= j < i implies key_before(#[trigger] acc[j], ts) by {
        assert(lex_less(acc[j].timestamp->0, acc[i].timestamp->0));
    }
    lemma_less_irreflexive(ts);
    lemma_lower_bound_at(acc, ts, 0, i);
}

/// Absorbing a row adds its timestamp to those of the accumulator and
/// nothing else; the accumulator grows by one row exactly when the timestamp
/// is new.
pub proof fn lemma_absorb_stamps(acc: Seq<Row>, row: Row, slots: Seq<int>, width: nat)
    requires
        ascending(acc),
        row.timestamp is Some,
    ensures
        forall|x: Seq<char>|
            #![trigger has_stamp(absorb(acc, row, slots, width), x)]
            has_stamp(absorb(acc, row, slots, width), x) <==> has_stamp(acc, x) || x == row.timestamp->0,
        has_stamp(acc, row.timestamp->0) ==> absorb(acc, row, slots, width).len() == acc.len(),
        !has_stamp(acc, row.timestamp->0) ==> absorb(acc, row, slots, width).len() == acc.len() + 1,
{
    let ts = row.timestamp->0;
    let p = lower_bound(acc, ts, 0);
    let out = absorb(acc, row, slots, width);
    lemma_lower_bound_splits(acc, ts, 0);
    if has_stamp(acc, ts) {
        let i = choose|i: int| 0 <= i < acc.len() && (#[trigger] acc[i]).timestamp == Some(ts);
        lemma_lower_bound_finds(acc, ts, i);
    }
    if p < acc.len() && acc[p].timestamp == Some(ts) {
        assert forall|x: Seq<char>| has_stamp(out, x) <==> has_stamp(acc, x) || x == ts by {
            if has_stamp(out, x) {
                let i = choose|i: int| 0 <= i < out.len() && (#[trigger] out[i]).timestamp == Some(x);
                assert(acc[i].timestamp == Some(x));
            }
            if has_stamp(acc, x) {
                let i = choose|i: int| 0 <= i < acc.len() && (#[trigger] acc[i]).timestamp == Some(x);
                assert(out[i].timestamp == Some(x));
            }
            if x == ts {
                assert(out[p].timestamp == Some(x));
            }
        }
    } else {
        assert forall|x: Seq<char>| has_stamp(out, x) <==> has_stamp(acc, x) || x == ts by {
            if has_stamp(out, x) {
                let i = choose|i: int| 0 <= i < out.len() && (#[trigger] out[i]).timestamp == Some(x);
                if i < p {
                    assert(acc[i].timestamp == Some(x));
                } else if i > p {
                    assert(acc[i - 1].timestamp == Some(x));
                }
            }
            if has_stamp(acc, x) {
                let i = choose|i: int| 0 <= i < acc.len() && (#[trigger] acc[i]).timestamp == Some(x);
                if i < p {
                    assert(out[i].timestamp == Some(x));
                } else {
                    assert(out[i + 1].timestamp == Some(x));
                }
            }
            if x == ts {
                assert(out[p].timestamp == Some(x));
            }
        }
    }
}

/// Absorbing rows whose timestamps are new and pairwise different adds one
/// row for each.
pub proof fn lemma_absorb_rows_counts(acc: Seq<Row>, rows: Seq<Row>, slots: Seq<int>, width: nat, n: int)
    requires
        ascending(acc),
        all_wide(acc, width),
        stamped_apart(rows),
        disjoint_stamps(acc, rows),
        0 <= n <= rows.len(),
    ensures
        absorb_rows(acc, rows, slots, width, n).len() == acc.len() + n,
        forall|x: Seq<char>|
            #![trigger has_stamp(absorb_rows(acc, rows, slots, width, n), x)]
            has_stamp(absorb_rows(acc, rows, slots, width, n), x) <==> has_stamp(acc, x) || has_stamp_before(
                rows,
                n,
                x,
            ),
    decreases n,
{
    let out = absorb_rows(acc, rows, slots, width, n);
    if n > 0 {
        let before = absorb_rows(acc, rows, slots, width, n - 1);
        let row = rows[n - 1];
        let ts = row.timestamp->0;
        lemma_absorb_rows_counts(acc, rows, slots, width, n - 1);
        lemma_absorb_rows_keeps(acc, rows, slots, width, n - 1);
        lemma_absorb_stamps(before, row, slots, width);
        assert(!has_stamp(before, ts)) by {
            if has_stamp(acc, ts) {
                let i = choose|i: int| 0 <= i < acc.len() && (#[trigger] acc[i]).timestamp == Some(ts);
                assert(acc[i].timestamp != rows[n - 1].timestamp);
            }
            if has_stamp_before(rows, n - 1, ts) {
                let i = choose|i: int| 0 <= i < n - 1 && i < rows.len() && (#[trigger] rows[i]).timestamp == Some(ts);
                assert(rows[i].timestamp != rows[n - 1].timestamp);
            }
        }
        assert(out == absorb(before, row, slots, width));
        assert forall|x: Seq<char>| has_stamp(out, x) <==> has_stamp(acc, x) || has_stamp_before(rows, n, x) by {
            assert(has_stamp(absorb(before, row, slots, width), x) <==> has_stamp(before, x) || x == ts);
            assert(has_stamp(before, x) <==> has_stamp(acc, x) || has_stamp_before(rows, n - 1, x));
            if has_stamp_before(rows, n, x) {
                let i = choose|i: int| 0 <= i < n && i < rows.len() && (#[trigger] rows[i]).timestamp == Some(x);
                if i < n - 1 {
                    assert(has_stamp_before(rows, n - 1, x));
                }
            }
            if has_stamp_before(rows, n - 1, x) {
                let i = choose|i: int| 0 <= i < n - 1 && i < rows.len() && (#[trigger] rows[i]).timestamp == Some(x);
                assert(has_stamp_before(rows, n, x));
            }
            if x == ts {
                assert(rows[n - 1].timestamp == Some(x));
                assert(has_stamp_before(rows, n, x));
            }
        }
    } else {
        assert forall|x: Seq<char>| has_stamp(out, x) <==> has_stamp(acc, x) || has_stamp_before(rows, n, x) by {}
    }
}

/// Merging two tables whose rows all have timestamps, no timestamp twice in
/// either and none in both, gives as many rows as the two hold together.
pub proof fn law_disjoint_merge_counts(a: Table, b: Table)
    requires
        stamped_apart(a.rows),
        stamped_apart(b.rows),
        disjoint_stamps(a.rows, b.rows),
    ensures
        merged(seq![a, b]).rows.len() == a.rows.len() + b.rows.len(),
{
    let tables = seq![a, b];
    let headers = merged_headers(tables, 2);
    let width = headers.len();
    let none = Seq::<Row>::empty();
    let first = absorb_rows(none, a.rows, slots_for(headers, a.headers), width, a.rows.len() as int);
    reveal_with_fuel(merged_rows, 3);
    assert(merged_rows(tables, headers, 0) =~= none);
    assert(merged_rows(tables, headers, 1) == first);
    lemma_absorb_rows_counts(none, a.rows, slots_for(headers, a.headers), width, a.rows.len() as int);
    lemma_absorb_rows_keeps(none, a.rows, slots_for(headers, a.headers), width, a.rows.len() as int);
    assert(disjoint_stamps(first, b.rows)) by {
        assert forall|i: int, j: int| 0 <= i < first.len() && 0 <= j < b.rows.len() implies (#[trigger] first[i]).timestamp
            != (#[trigger] b.rows[j]).timestamp by {
            let x = first[i].timestamp->0;
            assert(has_stamp(first, x));
            assert(!has_stamp(none, x));
            let k = choose|k: int|
                0 <= k < a.rows.len() && k < a.rows.len() && (#[trigger] a.rows[k]).timestamp == Some(x);
            assert(a.rows[k].timestamp != b.rows[j].timestamp);
        }
    }
    lemma_absorb_rows_counts(first, b.rows, slots_for(headers, b.headers), width, b.rows.len() as int);
}

/// A cell of the merged row keeps what it held when no present cell of the
/// first `n` local columns writes to it: a missing value overwrites nothing.
pub proof fn law_overlay_keeps(target: Seq<Option<u64>>, values: Seq<Option<u64>>, slots: Seq<int>, n: int, g: int)
    requires
        0 <= g < target.len(),
        forall|c: int| 0 <= c < n && c < values.len() && c < slots.len() && slots[c] == g ==> (#[trigger] values[c]) is None,
    ensures
        overlay(target, values, slots, n)[g] == target[g],
    decreases n,
{
    if n > 0 {
        law_overlay_keeps(target, values, slots, n - 1, g);
        lemma_overlay_len(target, values, slots, n - 1);
    }
}

/// A cell of the merged row holds the present value of the last local column
/// that writes to it: of two present values the later one stays.
pub proof fn law_overlay_last_wins(
    target: Seq<Option<u64>>,
    values: Seq<Option<u64>>,
    slots: Seq<int>,
    n: int,
    c: int,
)
    requires
        0 <= c < n,
        c < values.len(),
        c < slots.len(),
        values[c] is Some,
        0 <= slots[c] < target.len(),
        forall|d: int| c < d < n && d < values.len() && d < slots.len() && slots[d] == slots[c] ==> (#[trigger] values[d]) is None,
    ensures
        overlay(target, values, slots, n)[slots[c]] == values[c],
    decreases n,
{
    lemma_overlay_len(target, values, slots, n - 1);
    if c < n - 1 {
        law_overlay_last_wins(target, values, slots, n - 1, c);
    }
}

/// Two tables of one row each, with the same timestamp, merge into one row:
/// the first table's row written into an empty merged row, then the second
/// table's row written over it.
pub proof fn law_shared_timestamp_merges(a: Table, b: Table, ts: Seq<char>)
    requires
        a.rows.len() == 1,
        b.rows.len() == 1,
        a.rows[0].timestamp == Some(ts),
        b.rows[0].timestamp == Some(ts),
    ensures
        merged(seq![a, b]).rows.len() == 1,
        merged(seq![a, b]).rows[0].timestamp == Some(ts),
        merged(seq![a, b]).rows[0].values == overlay(
            overlay(
                no_values(merged(seq![a, b]).headers.len()),
                a.rows[0].values,
                slots_for(merged(seq![a, b]).headers, a.headers),
                a.rows[0].values.len() as int,
            ),
            b.rows[0].values,
            slots_for(merged(seq![a, b]).headers, b.headers),
            b.rows[0].values.len() as int,
        ),
{
    let tables = seq![a, b];
    let headers = merged_headers(tables, 2);
    let width = headers.len();
    let none = Seq::<Row>::empty();
    reveal_with_fuel(merged_rows, 3);
    reveal_with_fuel(absorb_rows, 2);
    assert(merged_rows(tables, headers, 0) =~= none);
    let first = absorb(none, a.rows[0], slots_for(headers, a.headers), width);
    assert(merged_rows(tables, headers, 1) == first);
    assert(lower_bound(none, ts, 0) == 0);
    assert(first.len() == 1);
    lemma_less_irreflexive(ts);
    assert(lower_bound(first, ts, 0) == 0);
    let second = absorb(first, b.rows[0], slots_for(headers, b.headers), width);
    assert(merged_rows(tables, headers, 2) == second);
}

/// Equality up to ASCII case is symmetric.
pub proof fn lemma_same_name_symmetric(a: Seq<char>, b: Seq<char>)
    requires
        same_name(a, b),
    ensures
        same_name(b, a),
{
    assert forall|i: int| 0 <= i < b.len() implies folded(#[trigger] b[i]) == folded(
        a[i],
    ) by {
        assert(folded(a[i]) == folded(b[i]));
    }
}

/// Equality up to ASCII case is transitive.
pub proof fn lemma_same_name_transitive(a: Seq<char>, b: Seq<char>, c: Seq<char>)
    requires
        same_name(a, b),
        same_name(b, c),
    ensures
        same_name(a, c),
{
    assert forall|i: int| 0 <= i < a.len() implies folded(#[trigger] a[i]) == folded(
        c[i],
    ) by {
        assert(folded(a[i]) == folded(b[i]));
        assert(folded(b[i]) == folded(c[i]));
    }
}

/// A name equal up to ASCII case to a time name is a time name.
pub proof fn lemma_time_name_spreads(a: Seq<char>, b: Seq<char>)
    requires
        is_time_name(a),
        same_name(a, b),
    ensures
        is_time_name(b),
{
    lemma_same_name_symmetric(a, b);
    if same_name(a, "timestamp"@) {
        lemma_same_name_transitive(b, a, "timestamp"@);
    } else {
        lemma_same_name_transitive(b, a, "time"@);
    }
}

/// A position with no match before it, and a match at it, is the slot.
pub proof fn lemma_slot_at(headers: Seq<Seq<char>>, name: Seq<char>, i: int, p: int)
    requires
        0 <= i <= p < headers.len(),
        forall|j: int| i <= j < p ==> !same_name(#[trigger] headers[j], name),
        same_name(headers[p], name),
    ensures
        slot_of_from(headers, name, i) == p,
    decreases p - i,
{
    if i < p {
        lemma_slot_at(headers, name, i + 1, p);
    }
}

/// A sequence with the element at `k` moved to the front.
pub open spec fn moved<A>(s: Seq<A>, k: int) -> Seq<A> {
    seq![s[k]] + s.remove(k)
}

/// Where column `c` stands once column `k` has moved to the front.
pub open spec fn place(c: int, k: int) -> int {
    if c == k {
        0
    } else if c < k {
        c + 1
    } else {
        c
    }
}

/// A table with column `k` moved to the front, in the headers and in every
/// row.
pub open spec fn reordered(table: Table, k: int) -> Table {
    Table {
        headers: moved(table.headers, k),
        rows: Seq::new(
            table.rows.len(),
            |r: int| Row { timestamp: table.rows[r].timestamp, values: moved(table.rows[r].values, k) },
        ),
    }
}

/// What makes a table merge to itself: column `k` is its only time column,
/// its headers differ up to ASCII case, its rows are as wide as its headers,
/// ascend by timestamp, and hold nothing in the time column.
pub open spec fn standalone(table: Table, k: int) -> bool {
    &&& 0 <= k < table.headers.len()
    &&& is_time_name(table.headers[k])
    &&& forall|j: int| 0 <= j < table.headers.len() && j != k ==> !is_time_name(#[trigger] table.headers[j])
    &&& forall|i: int, j: int|
        0 <= i < j < table.headers.len() ==> !same_name(#[trigger] table.headers[i], #[trigger] table.headers[j])
    &&& table.well_formed()
    &&& ascending(table.rows)
    &&& forall|r: int| 0 <= r < table.rows.len() ==> (#[trigger] table.rows[r]).values[k] is None
}

/// The headers of the first `n` columns with column `k` in front.
pub open spec fn moved_prefix(headers: Seq<Seq<char>>, k: int, n: int) -> Seq<Seq<char>> {
    Seq::new(
        (if n > k { n } else { n + 1 }) as nat,
        |g: int|
            if g == 0 {
                headers[k]
            } else if g <= k {
                headers[g - 1]
            } else {
                headers[g]
            },
    )
}

/// The merged headers of a standalone table, column by column.
pub proof fn lemma_standalone_headers(table: Table, k: int, n: int)
    requires
        standalone(table, k),
        0 <= n <= table.headers.len(),
    ensures
        add_headers(seq![table.headers[k]], table.headers, n) == moved_prefix(table.headers, k, n),
    decreases n,
{
    let heads = table.headers;
    if n <= 0 {
        assert(seq![heads[k]] =~= moved_prefix(heads, k, n));
    } else {
        lemma_standalone_headers(table, k, n - 1);
        let before = add_headers(seq![heads[k]], heads, n - 1);
        let name = heads[n - 1];
        if n - 1 == k {
            assert(before =~= moved_prefix(heads, k, n));
        } else {
            lemma_slot_of(before, name, 0);
            let slot = slot_of(before, name);
            if slot < before.len() {
                if slot == 0 {
                    lemma_time_name_spreads(heads[k], name);
                } else {
                    let j = if slot <= k { slot - 1 } else { slot };
                    assert(before[slot] == heads[j]);
                    assert(!same_name(heads[j], heads[n - 1]));
                }
            }
            assert(before.push(name) =~= moved_prefix(heads, k, n));
        }
    }
}

/// The merged column of each column of a standalone table.
pub proof fn lemma_standalone_slots(table: Table, k: int, c: int)
    requires
        standalone(table, k),
        0 <= c < table.headers.len(),
    ensures
        slot_for(moved(table.headers, k), table.headers[c]) == place(c, k),
{
    let heads = table.headers;
    let global = moved(heads, k);
    let name = heads[c];
    if c != k {
        let p = place(c, k);
        assert(global[p] == name);
        assert(same_name(name, name));
        assert forall|j: int| 0 <= j < p implies !same_name(#[trigger] global[j], name) by {
            if j == 0 {
                if same_name(heads[k], name) {
                    lemma_time_name_spreads(heads[k], name);
                }
            } else {
                let i = if j <= k { j - 1 } else { j };
                assert(global[j] == heads[i]);
                assert(i < c);
                assert(!same_name(heads[i], heads[c]));
            }
        }
        lemma_slot_at(global, name, 0, p);
    }
}

/// A row of a standalone table written into an empty merged row is the row
/// with its time cell in front.
pub proof fn lemma_standalone_row(table: Table, k: int, values: Seq<Option<u64>>)
    requires
        standalone(table, k),
        values.len() == table.headers.len(),
        values[k] is None,
    ensures
        overlay(
            no_values(table.headers.len()),
            values,
            slots_for(moved(table.headers, k), table.headers),
            values.len() as int,
        ) == moved(values, k),
{
    let heads = table.headers;
    let n = heads.len() as int;
    let slots = slots_for(moved(heads, k), heads);
    let target = no_values(heads.len());
    let out = overlay(target, values, slots, n);
    lemma_overlay_len(target, values, slots, n);
    assert forall|c: int| 0 <= c < n implies #[trigger] slots[c] == place(c, k) by {
        lemma_standalone_slots(table, k, c);
    }
    assert forall|g: int| 0 <= g < n implies out[g] == moved(values, k)[g] by {
        let c = if g == 0 { k } else if g <= k { g - 1 } else { g };
        assert(place(c, k) == g);
        assert(moved(values, k)[g] == values[c]);
        assert(slots[c] == g);
        if values[c] is Some {
            assert forall|d: int| c < d < n && d < values.len() && d < slots.len() && slots[d] == slots[c] implies (
            #[trigger] values[d]) is None by {
                assert(slots[d] == place(d, k));
            }
            law_overlay_last_wins(target, values, slots, n, c);
        } else {
            assert forall|d: int| 0 <= d < n && d < values.len() && d < slots.len() && slots[d] == g implies (
            #[trigger] values[d]) is None by {
                assert(slots[d] == place(d, k));
                assert(d == c);
            }
            law_overlay_keeps(target, values, slots, n, g);
        }
    }
    assert(out =~= moved(values, k));
}

/// The accumulator after the first `n` rows of a standalone table.
pub proof fn lemma_standalone_rows(table: Table, k: int, n: int)
    requires
        standalone(table, k),
        0 <= n <= table.rows.len(),
    ensures
        absorb_rows(
            Seq::empty(),
            table.rows,
            slots_for(moved(table.headers, k), table.headers),
            table.headers.len(),
            n,
        ) == reordered(table, k).rows.take(n),
    decreases n,
{
    let slots = slots_for(moved(table.headers, k), table.headers);
    let width = table.headers.len();
    let out = absorb_rows(Seq::empty(), table.rows, slots, width, n);
    let goal = reordered(table, k).rows;
    if n <= 0 {
        assert(out =~= goal.take(n));
    } else {
        lemma_standalone_rows(table, k, n - 1);
        let acc = goal.take(n - 1);
        let row = table.rows[n - 1];
        let ts = row.timestamp->0;
        assert forall|j: int| 0 <= j < acc.len() implies key_before(#[trigger] acc[j], ts) by {
            assert(acc[j].timestamp == table.rows[j].timestamp);
            assert(lex_less(table.rows[j].timestamp->0, table.rows[n - 1].timestamp->0));
        }
        lemma_lower_bound_at(acc, ts, 0, acc.len() as int);
        assert(row.values.len() == width);
        lemma_standalone_row(table, k, row.values);
        assert(out == absorb(acc, row, slots, width));
        assert(out =~= goal.take(n));
    }
}

/// Merging a single standalone table gives the table itself with its time
/// column moved to the front.
pub proof fn law_merging_one_table(table: Table, k: int)
    requires
        standalone(table, k),
    ensures
        merged(seq![table]) == reordered(table, k),
{
    let tables = seq![table];
    lemma_time_column(table.headers, 0);
    assert(time_column(table.headers) == Some(k)) by {
        let found = time_column(table.headers);
        if found is Some && found->0 != k {
            assert(is_time_name(table.headers[found->0]));
        }
    }
    assert(canonical_name(table.headers) == table.headers[k]);
    reveal_with_fuel(merged_headers, 2);
    reveal_with_fuel(merged_rows, 2);
    lemma_standalone_headers(table, k, table.headers.len() as int);
    let headers = merged_headers(tables, 1);
    assert(headers =~= moved(table.headers, k));
    lemma_standalone_rows(table, k, table.rows.len() as int);
    assert(merged_rows(tables, headers, 0) =~= Seq::<Row>::empty());
    assert(reordered(table, k).rows.take(table.rows.len() as int) =~= reordered(table, k).rows);
}

} // verus!
