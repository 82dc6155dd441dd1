use commit_analysis::{convert_git_time_to_datetime, CalendarDate, CommitChanges};

#[test]
fn test_convert_git_time_to_datetime() {
    // 2015-05-15 00:00:00 UTC, a Friday.
    let d = convert_git_time_to_datetime(1431648000, 0);
    assert_eq!(d, CalendarDate { year: 2015, month: 5, weekday: 4 });
}

#[test]
fn git_time_offset_moves_the_date() {
    // One minute before midnight UTC, read at UTC+01:00, falls on the next day.
    let d = convert_git_time_to_datetime(1431647940, 60);
    assert_eq!(d, CalendarDate { year: 2015, month: 5, weekday: 4 });
    let d = convert_git_time_to_datetime(1431647940, 0);
    assert_eq!(d, CalendarDate { year: 2015, month: 5, weekday: 3 });
    // At UTC-02:00 the first minutes of a year still belong to the previous one.
    let d = convert_git_time_to_datetime(1420070400, -120);
    assert_eq!(d, CalendarDate { year: 2014, month: 12, weekday: 2 });
}

#[test]
fn git_time_at_and_before_the_epoch() {
    assert_eq!(
        convert_git_time_to_datetime(0, 0),
        CalendarDate { year: 1970, month: 1, weekday: 3 }
    );
    assert_eq!(
        convert_git_time_to_datetime(-1, 0),
        CalendarDate { year: 1969, month: 12, weekday: 2 }
    );
}

#[test]
fn test_add_commit_changes() {
    let one = CommitChanges::new(1, 2, 0);
    let two = CommitChanges::new(2, 3, 0);
    let three = one.add(two);
    assert_eq!(5, three.files_deleted);
}

#[test]
fn commit_changes_add_is_component_wise() {
    let a = CommitChanges::new(1, 20, 300);
    let b = CommitChanges::new(4, 50, 600);
    assert_eq!(a.add(b), CommitChanges::new(5, 70, 900));
    let mut c = a;
    c.add_assign(b);
    assert_eq!(c, CommitChanges::new(5, 70, 900));
    assert_eq!(a.add(CommitChanges::new(0, 0, 0)), a);
}

#[test]
fn commit_changes_merge_is_associative_and_commutative() {
    let a = CommitChanges::new(1, 2, 3);
    let b = CommitChanges::new(10, 0, 7);
    let c = CommitChanges::new(0, 5, 1);
    assert_eq!(a.add(b).add(c), a.add(b.add(c)));
    assert_eq!(a.add(b), b.add(a));
}
