use vstd::prelude::*;

verus! {

/// The command line: the pointers to show, the source to poll, and the
/// polling interval in seconds.
pub struct TJsonArgs {
    pub pointers: Vec<String>,
    pub source: String,
    pub polling_interval: usize,
}

/// The polling interval used where none is given, in seconds.
pub const DEFAULT_POLLING_INTERVAL: usize = 3;

impl TJsonArgs {
    /// The polling interval in milliseconds, held at `u64::MAX` where it
    /// would not fit.
    pub fn interval_millis(&self) -> (r: u64)
        ensures
            r == if self.polling_interval as int * 1000 <= u64::MAX {
                self.polling_interval as int * 1000
            } else {
                u64::MAX as int
            },
    {
        let secs = self.polling_interval as u64;
        if secs <= u64::MAX / 1000 {
            secs * 1000
        } else {
            u64::MAX
        }
    }
}

} // verus!
