use systemctui::selection::{next_index, previous_index, reconcile};

#[test]
fn next_wraps_from_last_to_first() {
    assert_eq!(next_index(3, 2), 0);
}

#[test]
fn previous_wraps_from_first_to_last() {
    assert_eq!(previous_index(3, 0), 2);
}

#[test]
fn next_and_previous_step_by_one() {
    assert_eq!(next_index(3, 0), 1);
    assert_eq!(next_index(3, 1), 2);
    assert_eq!(previous_index(3, 2), 1);
    assert_eq!(previous_index(3, 1), 0);
    assert_eq!(next_index(1, 0), 0);
    assert_eq!(previous_index(1, 0), 0);
    assert_eq!(next_index(usize::MAX, usize::MAX - 1), 0);
    assert_eq!(previous_index(usize::MAX, 0), usize::MAX - 1);
}

#[test]
fn n_moves_lead_back_and_fewer_do_not() {
    for n in 1..8usize {
        for start in 0..n {
            let mut down = start;
            let mut up = start;
            for k in 1..=n {
                down = next_index(n, down);
                up = previous_index(n, up);
                if k < n {
                    assert_ne!(down, start);
                    assert_ne!(up, start);
                }
            }
            assert_eq!(down, start);
            assert_eq!(up, start);
        }
    }
}

#[test]
fn next_undoes_previous() {
    for n in 1..6usize {
        for i in 0..n {
            assert_eq!(previous_index(n, next_index(n, i)), i);
            assert_eq!(next_index(n, previous_index(n, i)), i);
        }
    }
}

#[test]
fn reconcile_fits_selection_to_list() {
    assert_eq!(reconcile(None, 0), None);
    assert_eq!(reconcile(Some(0), 0), None);
    assert_eq!(reconcile(Some(7), 0), None);
    assert_eq!(reconcile(None, 3), Some(0));
    assert_eq!(reconcile(Some(0), 3), Some(0));
    assert_eq!(reconcile(Some(2), 3), Some(2));
    assert_eq!(reconcile(Some(3), 3), Some(2));
    assert_eq!(reconcile(Some(9), 3), Some(2));
    assert_eq!(reconcile(Some(9), 1), Some(0));
}

#[test]
fn nothing_moves_without_rows() {
    assert_eq!(next_index(0, 0), 0);
    assert_eq!(previous_index(0, 0), 0);
    assert_eq!(next_index(0, 4), 4);
    assert_eq!(previous_index(0, 4), 4);
}

#[test]
fn row_beyond_the_list_moves_into_it() {
    assert_eq!(next_index(3, 3), 0);
    assert_eq!(next_index(3, 9), 0);
    assert_eq!(previous_index(3, 3), 2);
    assert_eq!(previous_index(3, 9), 2);
    assert_eq!(next_index(1, usize::MAX), 0);
    assert_eq!(previous_index(1, usize::MAX), 0);
}
