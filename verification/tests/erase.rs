use dexios::erase::{secure_erase, EraseStep};

#[test]
fn two_passes_then_flush_truncate_unlink() {
    assert_eq!(
        secure_erase(10, 2),
        vec![
            EraseStep::Overwrite(10),
            EraseStep::Overwrite(10),
            EraseStep::Flush,
            EraseStep::Truncate,
            EraseStep::Unlink,
        ]
    );
}

#[test]
fn no_pass_still_removes_the_file() {
    let tail = vec![EraseStep::Flush, EraseStep::Truncate, EraseStep::Unlink];
    assert_eq!(secure_erase(10, 0), tail);
    assert_eq!(secure_erase(10, -3), tail);
    assert_eq!(secure_erase(0, i32::MIN), tail);
}

#[test]
fn every_pass_covers_the_whole_file() {
    let steps = secure_erase(u64::MAX, 5);
    assert_eq!(steps.len(), 8);
    for step in &steps[..5] {
        assert_eq!(*step, EraseStep::Overwrite(u64::MAX));
    }
    let empty = secure_erase(0, 1);
    assert_eq!(empty[0], EraseStep::Overwrite(0));
    assert_eq!(empty.len(), 4);
}
