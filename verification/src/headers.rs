//! Header resolution: finding the time axis and looking names up.

use vstd::prelude::*;
use crate::table::names;
use crate::text::{eq_ignore_case, is_time_name, names_time, same_name, text_eq};

verus! {

/// Index of the first header at or after `i` that names the time axis.
pub open spec fn time_column_from(headers: Seq<Seq<char>>, i: int) -> Option<int>
    decreases headers.len() - i,
{
    if i < 0 || i >= headers.len() {
        None
    } else if is_time_name(headers[i]) {
        Some(i)
    } else {
        time_column_from(headers, i + 1)
    }
}

/// Index of the first header that names the time axis.
pub open spec fn time_column(headers: Seq<Seq<char>>) -> Option<int> {
    time_column_from(headers, 0)
}

/// Index of the first header at or after `i` that equals `name` up to ASCII
/// case, or the number of headers when there is none.
pub open spec fn slot_of_from(headers: Seq<Seq<char>>, name: Seq<char>, i: int) -> int
    decreases headers.len() - i,
{
    if 0 <= i < headers.len() && !same_name(headers[i], name) {
        slot_of_from(headers, name, i + 1)
    } else {
        i
    }
}

/// Index of the first header that equals `name` up to ASCII case, or the
/// number of headers when there is none.
pub open spec fn slot_of(headers: Seq<Seq<char>>, name: Seq<char>) -> int {
    slot_of_from(headers, name, 0)
}

/// Index of the first header at or after `i` that is exactly `name`, or the
/// number of headers when there is none.
pub open spec fn index_of_from(headers: Seq<Seq<char>>, name: Seq<char>, i: int) -> int
    decreases headers.len() - i,
{
    if 0 <= i < headers.len() && headers[i] != name {
        index_of_from(headers, name, i + 1)
    } else {
        i
    }
}

/// Index of the first header that is exactly `name`, or the number of headers
/// when there is none.
pub open spec fn index_of(headers: Seq<Seq<char>>, name: Seq<char>) -> int {
    index_of_from(headers, name, 0)
}

/// What `time_column_from` finds is a time name with none before it.
pub proof fn lemma_time_column(headers: Seq<Seq<char>>, i: int)
    requires
        0 <= i,
    ensures
        match time_column_from(headers, i) {
            Some(k) => {
                &&& i <= k < headers.len()
                &&& is_time_name(headers[k])
                &&& forall|j: int| i <= j < k ==> !is_time_name(#[trigger] headers[j])
            },
            None => forall|j: int| i <= j < headers.len() ==> !is_time_name(#[trigger] headers[j]),
        },
    decreases headers.len() - i,
{
    if i < headers.len() && !is_time_name(headers[i]) {
        lemma_time_column(headers, i + 1);
    }
}

/// What `slot_of_from` finds is a matching header with none before it.
pub proof fn lemma_slot_of(headers: Seq<Seq<char>>, name: Seq<char>, i: int)
    requires
        0 <= i <= headers.len(),
    ensures
        i <= slot_of_from(headers, name, i) <= headers.len(),
        slot_of_from(headers, name, i) < headers.len() ==> same_name(
            headers[slot_of_from(headers, name, i)],
            name,
        ),
        forall|j: int| i <= j < slot_of_from(headers, name, i) ==> !same_name(#[trigger] headers[j], name),
    decreases headers.len() - i,
{
    if i < headers.len() && !same_name(headers[i], name) {
        lemma_slot_of(headers, name, i + 1);
    }
}

/// What `index_of_from` finds is the name itself with none before it.
pub proof fn lemma_index_of(headers: Seq<Seq<char>>, name: Seq<char>, i: int)
    requires
        0 <= i <= headers.len(),
    ensures
        i <= index_of_from(headers, name, i) <= headers.len(),
        index_of_from(headers, name, i) < headers.len() ==> headers[index_of_from(headers, name, i)] == name,
        forall|j: int| i <= j < index_of_from(headers, name, i) ==> #[trigger] headers[j] != name,
    decreases headers.len() - i,
{
    if i < headers.len() && headers[i] != name {
        lemma_index_of(headers, name, i + 1);
    }
}

/// A position with no header of that name before it, and the name at it, is
/// where the name is found.
pub proof fn lemma_index_at(headers: Seq<Seq<char>>, name: Seq<char>, i: int, p: int)
    requires
        0 <= i <= p <= headers.len(),
        forall|j: int| i <= j < p ==> #[trigger] headers[j] != name,
        p < headers.len() ==> headers[p] == name,
    ensures
        index_of_from(headers, name, i) == p,
    decreases p - i,
{
    if i < p {
        lemma_index_at(headers, name, i + 1, p);
    }
}

/// The column that a name addresses once it has been appended to the
/// headers: the column that had the name before, if there was one, else the
/// new one.
pub open spec fn addressed(headers: Seq<Seq<char>>, name: Seq<char>) -> int {
    if index_of(headers, name) < headers.len() {
        index_of(headers, name)
    } else {
        headers.len() as int
    }
}

/// A name appended to the headers is found where `addressed` says.
pub proof fn lemma_index_of_appended(headers: Seq<Seq<char>>, name: Seq<char>)
    ensures
        index_of(headers.push(name), name) == addressed(headers, name),
{
    let longer = headers.push(name);
    lemma_index_of(headers, name, 0);
    let p = addressed(headers, name);
    assert forall|j: int| 0 <= j < p implies #[trigger] longer[j] != name by {
        assert(longer[j] == headers[j]);
    }
    lemma_index_at(longer, name, 0, p);
}

/// The first header that names the time axis ("timestamp" or "time", in any
/// letter case), if there is one.
pub fn find_time_column(headers: &Vec<String>) -> (found: Option<usize>)
    ensures
        match found {
            Some(k) => k < headers@.len() && time_column(names(headers@)) == Some(k as int),
            None => time_column(names(headers@)) is None,
        },
{
    let mut i: usize = 0;
    while i < headers.len()
        invariant
            i <= headers.len(),
            time_column(names(headers@)) == time_column_from(names(headers@), i as int),
        decreases headers.len() - i,
    {
        if names_time(headers[i].as_str()) {
            return Some(i);
        }
        i = i + 1;
    }
    None
}

/// The first header equal to `name` up to ASCII case; the number of headers
/// when there is none.
pub fn find_slot(headers: &Vec<String>, name: &str) -> (slot: usize)
    ensures
        slot == slot_of(names(headers@), name@),
{
    let mut i: usize = 0;
    while i < headers.len() && !eq_ignore_case(headers[i].as_str(), name)
        invariant
            i <= headers.len(),
            slot_of(names(headers@), name@) == slot_of_from(names(headers@), name@, i as int),
        decreases headers.len() - i,
    {
        i = i + 1;
    }
    i
}

/// The first header that is exactly `name`; the number of headers when there
/// is none.
pub fn find_index(headers: &Vec<String>, name: &str) -> (index: usize)
    ensures
        index == index_of(names(headers@), name@),
{
    let mut i: usize = 0;
    while i < headers.len() && !text_eq(headers[i].as_str(), name)
        invariant
            i <= headers.len(),
            index_of(names(headers@), name@) == index_of_from(names(headers@), name@, i as int),
        decreases headers.len() - i,
    {
        i = i + 1;
    }
    i
}

} // verus!
