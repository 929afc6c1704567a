use bf_interp::tape::Tape;

#[test]
fn new_tape_is_zeroed() {
    let t = Tape::new(4);
    assert_eq!(t.len(), 4);
    assert_eq!(t.position(), 0);
    for i in 0..4 {
        assert_eq!(t.cell(i), 0);
    }
}

#[test]
fn inc_wraps_at_max() {
    let mut t = Tape::new(2);
    t.set(255);
    t.inc();
    assert_eq!(t.get(), 0);
}

#[test]
fn dec_wraps_at_zero() {
    let mut t = Tape::new(2);
    t.dec();
    assert_eq!(t.get(), 255);
}

#[test]
fn inc_and_dec_change_only_current_cell() {
    let mut t = Tape::new(3);
    t.ptr_inc();
    t.inc();
    t.inc();
    t.inc();
    t.dec();
    assert_eq!(t.cell(0), 0);
    assert_eq!(t.cell(1), 2);
    assert_eq!(t.cell(2), 0);
}

#[test]
fn set_and_get() {
    let mut t = Tape::new(5);
    t.ptr_inc();
    t.ptr_inc();
    t.set(42);
    assert_eq!(t.get(), 42);
    assert_eq!(t.cell(2), 42);
    assert_eq!(t.position(), 2);
}

#[test]
fn ptr_inc_wraps_to_first() {
    let mut t = Tape::new(3);
    t.ptr_inc();
    t.ptr_inc();
    assert_eq!(t.position(), 2);
    t.ptr_inc();
    assert_eq!(t.position(), 0);
}

#[test]
fn ptr_dec_wraps_to_last() {
    let mut t = Tape::new(3);
    t.ptr_dec();
    assert_eq!(t.position(), 2);
    t.ptr_dec();
    assert_eq!(t.position(), 1);
}

#[test]
fn single_cell_tape_cursor_stays() {
    let mut t = Tape::new(1);
    t.ptr_inc();
    assert_eq!(t.position(), 0);
    t.ptr_dec();
    assert_eq!(t.position(), 0);
}
