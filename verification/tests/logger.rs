use mclib::logger::{count_record, delimiter_for, FLUSH_INTERVAL};

#[test]
fn delimiter_for_ascii_separator() {
    assert_eq!(delimiter_for(','), b',');
    assert_eq!(delimiter_for(';'), b';');
    assert_eq!(delimiter_for('\t'), b'\t');
}

#[test]
fn delimiter_for_non_ascii_separator_is_comma() {
    assert_eq!(delimiter_for('é'), b',');
    assert_eq!(delimiter_for('→'), b',');
}

#[test]
fn count_record_flushes_every_interval() {
    assert_eq!(FLUSH_INTERVAL, 100);
    assert_eq!(count_record(0), (1, false));
    assert_eq!(count_record(98), (99, false));
    assert_eq!(count_record(99), (100, true));
    assert_eq!(count_record(100), (101, false));
    assert_eq!(count_record(199), (200, true));
    let mut cnt = 0;
    let mut flushes = 0;
    for _ in 0..1000 {
        let (next, flush) = count_record(cnt);
        cnt = next;
        if flush {
            flushes += 1;
        }
    }
    assert_eq!((cnt, flushes), (1000, 10));
}
