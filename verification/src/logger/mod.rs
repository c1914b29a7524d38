use vstd::prelude::*;

verus! {

/// How many records are written between two flushes of a log file.
pub const FLUSH_INTERVAL: usize = 100;

/// The byte that separates the fields of a log record: the separator itself when it is
/// an ASCII character, a comma (byte 44) otherwise.
pub fn delimiter_for(separator: char) -> (res: u8)
    ensures
        (separator as u32) < 128 ==> res == separator as u32,
        (separator as u32) >= 128 ==> res == 44,
{
    let code = separator as u32;
    if code < 128 {
        code as u8
    } else {
        44u8
    }
}

/// Counts one more written record: the new count, and whether the log must be flushed now
/// (after every `FLUSH_INTERVAL`-th record).
pub fn count_record(cnt: usize) -> (res: (usize, bool))
    requires
        cnt < usize::MAX,
    ensures
        res.0 == cnt + 1,
        res.1 == ((cnt + 1) % (FLUSH_INTERVAL as int) == 0),
{
    let next = cnt + 1;
    (next, next % FLUSH_INTERVAL == 0)
}

} // verus!
