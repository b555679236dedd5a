use vstd::prelude::*;

verus! {

/// The number of channels a chart has.
pub const MAX_CHANNELS: usize = 256;

/// One value per channel.
pub struct Table<T>(pub [T; MAX_CHANNELS]);

impl<T> Table<T> {
    /// Sets every channel to a fresh value made by `func`, channel by channel.
    pub fn fill_with(&mut self, func: impl Fn() -> T)
        requires
            call_requires(func, ()),
        ensures
            forall|i: int| 0 <= i < MAX_CHANNELS ==> call_ensures(func, (), #[trigger] final(self).0@[i]),
    {
        let mut i: usize = 0;
        while i < MAX_CHANNELS
            invariant
                i <= MAX_CHANNELS,
                call_requires(func, ()),
                forall|k: int| 0 <= k < i ==> call_ensures(func, (), #[trigger] self.0@[k]),
            decreases MAX_CHANNELS - i,
        {
            let value = func();
            self.0[i] = value;
            i += 1;
        }
    }
}

} // verus!
