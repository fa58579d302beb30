use synthizer::delay_line::{DelayLineCursor, DelayLineHandle};
use synthizer::nonzero::NonZeroCount;

#[test]
fn delay_of_zero_reads_current() {
    let mut line: DelayLineHandle<i32> = DelayLineHandle::new_defaulting(NonZeroCount::new(4).unwrap());
    let mut cursor = DelayLineCursor::new();
    assert_eq!(line.write_read(&mut cursor, 0, 42), 42);
}

#[test]
fn delays_read_the_past() {
    let mut line: DelayLineHandle<i32> = DelayLineHandle::new_cloningf(NonZeroCount::new(4).unwrap(), -1);
    assert_eq!(line.len(), 4);
    let mut cursor = DelayLineCursor::new();
    let mut out = Vec::new();
    for v in 1..=6 {
        out.push(line.write_read(&mut cursor, 2, v));
    }
    // Two frames of the initial value, then each value two frames late.
    assert_eq!(out, vec![-1, -1, 1, 2, 3, 4]);
}

#[test]
fn long_delays_wrap() {
    let mut line: DelayLineHandle<u8> = DelayLineHandle::new(NonZeroCount::new(3).unwrap(), || 0u8);
    let mut cursor = DelayLineCursor::new();
    line.write(&mut cursor, 1);
    line.write(&mut cursor, 2);
    line.write(&mut cursor, 3);
    // A delay of 3 in a line of 3 reads what is about to be overwritten; 4 wraps to 1.
    let mut reader = DelayLineCursor::new();
    assert_eq!(line.read(&mut reader, 3), 1);
    assert_eq!(line.read(&mut reader, 4), 1);
}

#[test]
fn merged_writes_add() {
    let mut line: DelayLineHandle<i64> = DelayLineHandle::new_defaulting(NonZeroCount::new(2).unwrap());
    let mut cursor = DelayLineCursor::new();
    line.write_merged(&mut cursor, 5, |a, b| a + b);
    let mut again = DelayLineCursor::new();
    line.write_merged(&mut again, 7, |a, b| a + b);
    let mut reader = DelayLineCursor::new();
    assert_eq!(line.read(&mut reader, 0), 12);
}
