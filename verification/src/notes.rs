//! The table of equal-tempered reference notes and the lookup of the entry
//! nearest to a detected frequency.
//!
//! Frequencies are integers in a fixed unit chosen by the caller; the table
//! itself is kept in hundredths of a hertz.
use vstd::prelude::*;

verus! {

/// Number of reference notes in the table.
pub const NOTE_COUNT: usize = 108;

/// The reference notes in hundredths of a hertz, from C0 (16.35 Hz) up to
/// B8 (7902.13 Hz), one entry per semitone.
pub open spec fn note_table() -> Seq<i64> {
    seq![
        1635, 1732, 1835, 1945, 2060, 2183, 2312, 2450, 2596,
        2750, 2914, 3087, 3270, 3465, 3671, 3889, 4120, 4365,
        4625, 4900, 5191, 5500, 5827, 6174, 6541, 6930, 7342,
        7778, 8241, 8731, 9250, 9800, 10383, 11000, 11654, 12347,
        13081, 13859, 14683, 15556, 16481, 17461, 18500, 19600, 20765,
        22000, 23308, 24694, 26163, 27718, 29366, 31113, 32963, 34923,
        36999, 39200, 41530, 44000, 46616, 49388, 52325, 55437, 58733,
        62225, 65926, 69846, 73999, 78399, 83061, 88000, 93233, 98777,
        104650, 110873, 117466, 124451, 131851, 139691, 147998, 156798, 166122,
        176000, 186466, 197553, 209300, 221746, 234932, 248902, 263702, 279383,
        295996, 313596, 332244, 352000, 372931, 395107, 418601, 443492, 469864,
        497803, 527404, 558765, 591991, 627193, 664488, 704000, 745862, 790213,
    ]
}

/// The reference notes, in hundredths of a hertz.
pub fn known_frequencies() -> (notes: Vec<i64>)
    ensures
        notes@ == note_table(),
        notes@.len() == NOTE_COUNT,
        strictly_ascending(notes@),
{
    let notes: Vec<i64> = vec![
        1635, 1732, 1835, 1945, 2060, 2183, 2312, 2450, 2596,
        2750, 2914, 3087, 3270, 3465, 3671, 3889, 4120, 4365,
        4625, 4900, 5191, 5500, 5827, 6174, 6541, 6930, 7342,
        7778, 8241, 8731, 9250, 9800, 10383, 11000, 11654, 12347,
        13081, 13859, 14683, 15556, 16481, 17461, 18500, 19600, 20765,
        22000, 23308, 24694, 26163, 27718, 29366, 31113, 32963, 34923,
        36999, 39200, 41530, 44000, 46616, 49388, 52325, 55437, 58733,
        62225, 65926, 69846, 73999, 78399, 83061, 88000, 93233, 98777,
        104650, 110873, 117466, 124451, 131851, 139691, 147998, 156798, 166122,
        176000, 186466, 197553, 209300, 221746, 234932, 248902, 263702, 279383,
        295996, 313596, 332244, 352000, 372931, 395107, 418601, 443492, 469864,
        497803, 527404, 558765, 591991, 627193, 664488, 704000, 745862, 790213,
    ];
    proof {
        lemma_note_table_ascending();
    }
    notes
}

/// The table holds one hundred and eight notes in strictly ascending order.
pub proof fn lemma_note_table_ascending()
    ensures
        note_table().len() == NOTE_COUNT,
        strictly_ascending(note_table()),
{
    let t = note_table();
    assert(forall|i: int| 0 <= i < 107 ==> #[trigger] t[i] < t[i + 1]);
    assert forall|i: int, j: int| 0 <= i < j < t.len() implies t[i] < t[j] by {
        lemma_steps_ascend(t, i, j);
    }
}

proof fn lemma_steps_ascend(t: Seq<i64>, i: int, j: int)
    requires
        forall|k: int| 0 <= k < t.len() - 1 ==> #[trigger] t[k] < t[k + 1],
        0 <= i < j < t.len(),
    ensures
        t[i] < t[j],
    decreases j - i,
{
    if i + 1 < j {
        lemma_steps_ascend(t, i, j - 1);
    }
}

/// `v` holds no value twice and every value is larger than the one before.
pub open spec fn strictly_ascending(v: Seq<i64>) -> bool {
    forall|i: int, j: int| 0 <= i < j < v.len() ==> v[i] < v[j]
}

/// Absolute difference of two frequencies.
pub open spec fn distance(a: int, b: int) -> int {
    if a >= b {
        a - b
    } else {
        b - a
    }
}

/// There is nothing to look up: the table is empty, or the range ends before
/// the first entry or before it starts.
pub open spec fn nothing_to_search(l: int, r: int, len: int) -> bool {
    len == 0 || r == 0 || r < l
}

/// Index of the first entry that is looked at: entry `l`, or the last entry
/// of the table where `l` lies behind it.
pub open spec fn first_candidate(l: int, len: int) -> int {
    if l < len {
        l
    } else {
        len - 1
    }
}

/// Index of the last entry that is looked at: entry `r`, or the last entry of
/// the table where `r` lies behind it.
pub open spec fn last_candidate(r: int, len: int) -> int {
    if r < len {
        r
    } else {
        len - 1
    }
}

/// Entry `j` is one of those that a lookup over the range from `l` to `r` of
/// a table of `len` entries chooses from.
pub open spec fn is_candidate(j: int, l: int, r: int, len: int) -> bool {
    first_candidate(l, len) <= j <= last_candidate(r, len)
}

/// Entry `k` is the candidate nearest to `f`: no candidate is nearer, and
/// every candidate before it is farther away, so that of two entries at the
/// same distance the lower one is the nearest.
pub open spec fn is_nearest(f: int, l: int, r: int, v: Seq<i64>, k: int) -> bool {
    &&& is_candidate(k, l, r, v.len() as int)
    &&& forall|j: int|
        is_candidate(j, l, r, v.len() as int) ==> distance(f, v[k] as int) <= distance(
            f,
            #[trigger] v[j] as int,
        )
    &&& forall|j: int|
        is_candidate(j, l, r, v.len() as int) && j < k ==> distance(f, v[k] as int) < distance(
            f,
            #[trigger] v[j] as int,
        )
}

fn gap(a: i64, b: i64) -> (d: i128)
    ensures
        d == distance(a as int, b as int),
{
    let wide_a: i128 = a as i128;
    let wide_b: i128 = b as i128;
    if wide_a >= wide_b {
        wide_a - wide_b
    } else {
        wide_b - wide_a
    }
}

/// Looks up the index of the entry of `v` nearest to `f` among the entries
/// from `l` to `r`; of two entries at the same distance it gives the lower.
/// Returns `-1` when `v` is empty, `r` is zero or `r < l`.
///
/// `f` and the entries of `v` are frequencies in the same unit.  The table is
/// searched by halving, which finds the nearest entry where the table is
/// strictly ascending.
pub fn find_index_of_nearest_to(f: i64, l: usize, r: usize, v: &[i64]) -> (index: i32)
    requires
        v@.len() <= i32::MAX,
    ensures
        index == -1 <==> nothing_to_search(l as int, r as int, v@.len() as int),
        index != -1 ==> is_candidate(index as int, l as int, r as int, v@.len() as int),
        index != -1 && strictly_ascending(v@) ==> is_nearest(
            f as int,
            l as int,
            r as int,
            v@,
            index as int,
        ),
{
    let len: usize = v.len();
    if len == 0 || r == 0 || r < l {
        return -1;
    }
    let first: usize = if l < len {
        l
    } else {
        len - 1
    };
    let last: usize = if r < len {
        r
    } else {
        len - 1
    };
    // The first candidate that is not below `f` is looked for in `lo..hi`.
    let mut lo: usize = first;
    let mut hi: usize = last + 1;
    while lo < hi
        invariant
            len == v@.len(),
            first <= lo <= hi <= last + 1,
            last < len,
            strictly_ascending(v@) ==> forall|j: int| first <= j < lo ==> #[trigger] v@[j] < f,
            strictly_ascending(v@) ==> forall|j: int| hi <= j <= last ==> #[trigger] v@[j] >= f,
        decreases hi - lo,
    {
        let middle: usize = lo + (hi - lo) / 2;
        if v[middle] < f {
            lo = middle + 1;
        } else {
            hi = middle;
        }
    }
    let chosen: usize = if lo == first {
        first
    } else if lo > last {
        last
    } else if gap(f, v[lo - 1]) <= gap(f, v[lo]) {
        lo - 1
    } else {
        lo
    };
    chosen as i32
}

/// At most one entry is the nearest.
pub proof fn lemma_nearest_is_unique(f: int, l: int, r: int, v: Seq<i64>, a: int, b: int)
    requires
        is_nearest(f, l, r, v, a),
        is_nearest(f, l, r, v, b),
    ensures
        a == b,
{
    if a < b {
        assert(distance(f, v[b] as int) < distance(f, v[a] as int));
    } else if b < a {
        assert(distance(f, v[a] as int) < distance(f, v[b] as int));
    }
}

/// Looking up a value that stands in a strictly ascending table gives the
/// index at which it stands: that entry is the nearest, so it is what a
/// lookup over the whole table returns.
pub proof fn lemma_entry_is_found(v: Seq<i64>, i: int, k: int)
    requires
        strictly_ascending(v),
        0 <= i < v.len(),
        is_nearest(v[i] as int, 0, v.len() as int, v, k),
    ensures
        is_nearest(v[i] as int, 0, v.len() as int, v, i),
        k == i,
{
    assert(is_candidate(i, 0, v.len() as int, v.len() as int));
    assert(distance(v[i] as int, v[k] as int) <= distance(v[i] as int, v[i] as int));
}

/// A frequency midway between two neighbouring entries of a strictly
/// ascending table is looked up as the lower of the two.
pub proof fn lemma_midpoint_goes_to_lower(f: int, v: Seq<i64>, i: int, k: int)
    requires
        strictly_ascending(v),
        0 <= i,
        i + 1 < v.len(),
        f - v[i] == v[i + 1] - f,
        is_nearest(f, 0, v.len() as int, v, k),
    ensures
        is_nearest(f, 0, v.len() as int, v, i),
        k == i,
{
    let len = v.len() as int;
    assert(v[i] < v[i + 1]);
    assert(is_candidate(i, 0, len, len));
    assert forall|j: int| is_candidate(j, 0, len, len) implies distance(f, v[i] as int)
        <= distance(f, #[trigger] v[j] as int) && (j < i ==> distance(f, v[i] as int) < distance(
        f,
        v[j] as int,
    )) by {
        if j < i {
            assert(v[j] < v[i]);
        } else if j > i + 1 {
            assert(v[i + 1] < v[j]);
        }
    }
    lemma_nearest_is_unique(f, 0, len, v, i, k);
}

/// Every reference note is looked up at its own index in the table of
/// reference notes.
pub proof fn lemma_reference_note_is_found(i: int, k: int)
    requires
        0 <= i < NOTE_COUNT,
        is_nearest(note_table()[i] as int, 0, NOTE_COUNT as int, note_table(), k),
    ensures
        k == i,
{
    lemma_note_table_ascending();
    lemma_entry_is_found(note_table(), i, k);
}

} // verus!
