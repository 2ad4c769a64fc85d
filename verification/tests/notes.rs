use pitch::notes::{find_index_of_nearest_to, known_frequencies, NOTE_COUNT};

// Frequencies below are written in hundredths of the unit, so that 4.2
// reads 420.

#[test]
fn find_in_empty_vec_returns_neg_1() {
    let v: Vec<i64> = Vec::new();
    assert_eq!(-1, find_index_of_nearest_to(420, 0, v.len(), &v[..]));
}

#[test]
fn find_with_d_inferior_or_equal_to_0_returns_neg_1() {
    let v: Vec<i64> = vec![0];
    assert_eq!(-1, find_index_of_nearest_to(420, 0, 0, &v[..]));
}

#[test]
fn find_with_d_inferior_or_equal_to_g_returns_neg_1() {
    let v: Vec<i64> = vec![430, 580];
    assert_eq!(-1, find_index_of_nearest_to(420, 4, 3, &v[..]));
}

#[test]
fn find_returns_index_of_nearest() {
    let v: Vec<i64> = vec![420, 530, 720, 910, 1100];
    assert_eq!(1, find_index_of_nearest_to(476, 0, v.len(), &v[..]));
}

#[test]
fn find_returns_index_of_nearest2() {
    let v: Vec<i64> = vec![420, 530, 720, 910, 1100];
    assert_eq!(0, find_index_of_nearest_to(475, 0, v.len(), &v[..]));
}

#[test]
fn find_returns_index_of_nearest3() {
    let v: Vec<i64> = vec![420, 530, 720, 910, 1100];
    assert_eq!(0, find_index_of_nearest_to(420, 0, v.len(), &v[..]));
}

#[test]
fn find_440_returns_index_of_value_440() {
    let notes = known_frequencies();
    assert_eq!(57, find_index_of_nearest_to(44000, 0, notes.len(), &notes[..]));
}

#[test]
fn find_439_05_returns_index_of_value_440() {
    let notes = known_frequencies();
    assert_eq!(57, find_index_of_nearest_to(43905, 0, notes.len(), &notes[..]));
}

#[test]
fn find_34_539944() {
    // 34.539944 needs millionths: the table is brought to the same unit.
    let notes: Vec<i64> = known_frequencies().iter().map(|n| n * 10_000).collect();
    assert_eq!(13, find_index_of_nearest_to(34_539_944, 0, notes.len(), &notes[..]));
}

#[test]
fn table_holds_the_reference_notes_in_ascending_order() {
    let notes = known_frequencies();
    assert_eq!(notes.len(), 108);
    assert_eq!(notes.len(), NOTE_COUNT);
    assert_eq!(notes[0], 1635);
    assert_eq!(notes[57], 44000);
    assert_eq!(notes[107], 790213);
    for i in 1..notes.len() {
        assert!(notes[i - 1] < notes[i]);
    }
}

#[test]
fn every_reference_note_is_found_at_its_index() {
    let notes = known_frequencies();
    for (i, &note) in notes.iter().enumerate() {
        assert_eq!(i as i32, find_index_of_nearest_to(note, 0, notes.len(), &notes[..]));
    }
}

#[test]
fn every_entry_of_a_small_table_is_found_at_its_index() {
    for len in 1usize..40 {
        let v: Vec<i64> = (0..len as i64).map(|k| 10 * k * k - 50).collect();
        for (i, &x) in v.iter().enumerate() {
            assert_eq!(i as i32, find_index_of_nearest_to(x, 0, v.len(), &v[..]));
        }
    }
}

fn nearest_by_looking_at_every_entry(f: i64, v: &[i64]) -> i32 {
    let mut best = 0;
    for j in 1..v.len() {
        if (f as i128 - v[j] as i128).abs() < (f as i128 - v[best] as i128).abs() {
            best = j;
        }
    }
    best as i32
}

#[test]
fn no_entry_is_nearer_than_the_one_found() {
    for len in 1usize..30 {
        let v: Vec<i64> = (0..len as i64).map(|k| 7 * k + 3 + (k * k) % 5).collect();
        for f in -5i64..(8 * len as i64 + 10) {
            let k = find_index_of_nearest_to(f, 0, v.len(), &v[..]);
            assert_eq!(k, nearest_by_looking_at_every_entry(f, &v));
        }
    }
}

#[test]
fn every_midpoint_goes_to_the_lower_entry() {
    let notes: Vec<i64> = known_frequencies().iter().map(|n| 2 * n).collect();
    for i in 0..notes.len() - 1 {
        let middle = (notes[i] + notes[i + 1]) / 2;
        assert_eq!(i as i32, find_index_of_nearest_to(middle, 0, notes.len(), &notes[..]));
        assert_eq!(i as i32, find_index_of_nearest_to(middle - 1, 0, notes.len(), &notes[..]));
        assert_eq!((i + 1) as i32, find_index_of_nearest_to(middle + 1, 0, notes.len(), &notes[..]));
    }
}

#[test]
fn tie_between_two_entries_goes_to_the_lower() {
    let v: Vec<i64> = vec![0, 10, 20, 30, 40];
    assert_eq!(0, find_index_of_nearest_to(5, 0, v.len(), &v[..]));
    assert_eq!(3, find_index_of_nearest_to(35, 0, v.len(), &v[..]));
    let w: Vec<i64> = vec![-30, -10];
    assert_eq!(0, find_index_of_nearest_to(-20, 0, 1, &w[..]));
    let u: Vec<i64> = vec![1, 3, 5];
    assert_eq!(1, find_index_of_nearest_to(4, 0, u.len(), &u[..]));
    let t: Vec<i64> = vec![0, 10, 20];
    assert_eq!(1, find_index_of_nearest_to(15, 0, t.len(), &t[..]));
}

#[test]
fn frequency_just_over_an_entry_stays_with_it() {
    let v: Vec<i64> = vec![0, 10, 20];
    assert_eq!(1, find_index_of_nearest_to(11, 0, v.len(), &v[..]));
    let w: Vec<i64> = vec![0, 10, 20, 30, 40];
    assert_eq!(2, find_index_of_nearest_to(21, 0, w.len(), &w[..]));
    // 4.5 in the table 1, 2, 4, 8, 16, in tenths
    let t: Vec<i64> = vec![10, 20, 40, 80, 160];
    assert_eq!(2, find_index_of_nearest_to(45, 0, t.len(), &t[..]));
    // 370.00 Hz lies next to 369.99 Hz
    let notes = known_frequencies();
    assert_eq!(54, find_index_of_nearest_to(37000, 0, notes.len(), &notes[..]));
}

#[test]
fn frequencies_outside_the_table_go_to_its_ends() {
    let notes = known_frequencies();
    assert_eq!(0, find_index_of_nearest_to(0, 0, notes.len(), &notes[..]));
    assert_eq!(0, find_index_of_nearest_to(i64::MIN, 0, notes.len(), &notes[..]));
    assert_eq!(107, find_index_of_nearest_to(i64::MAX, 0, notes.len(), &notes[..]));
}

#[test]
fn search_stays_inside_the_range_given() {
    let v: Vec<i64> = vec![0, 10, 20, 30, 40, 50];
    assert_eq!(2, find_index_of_nearest_to(0, 2, 4, &v[..]));
    assert_eq!(4, find_index_of_nearest_to(50, 2, 4, &v[..]));
    assert_eq!(3, find_index_of_nearest_to(30, 2, 4, &v[..]));
    assert_eq!(3, find_index_of_nearest_to(7, 3, 3, &v[..]));
    assert_eq!(5, find_index_of_nearest_to(7, 6, 6, &v[..]));
    assert_eq!(4, find_index_of_nearest_to(7, 4, 60, &v[..]));
    assert_eq!(5, find_index_of_nearest_to(70, 4, 60, &v[..]));
    assert_eq!(4, find_index_of_nearest_to(7, 4, 5, &v[..]));
    assert_eq!(1, find_index_of_nearest_to(7, 0, 1, &v[..]));
}
