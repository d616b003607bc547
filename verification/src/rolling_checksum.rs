//! The rolling weak checksum abstraction: a stateful hash of a byte window
//! that supports O(1) extension on the right and O(1) shrinking on the left.

use vstd::prelude::*;

verus! {

/// A weak checksum over a byte window that can be slid and shrunk in O(1).
///
/// The central contract: after any sequence of `push_byte` / `pop_byte`
/// operations, `checksum()` equals `Self::checksum_spec(w)` where `w` is the
/// current window contents — the same value a fresh state built by `new(w)`
/// would report. The delta matcher relies on this to slide the window across
/// the new content (push then pop) and to shrink it at end of input (pop
/// without push).
pub trait RollingChecksum: Sized {
    /// Internal consistency of the checksum state.
    spec fn wf(&self) -> bool;

    /// The bytes currently covered by the window.
    spec fn window(&self) -> Seq<u8>;

    /// The checksum this implementation assigns to a window's contents.
    spec fn checksum_spec(window: Seq<u8>) -> u32;

    /// Initialize the state over a (possibly short) initial window.
    fn new(initial_window: &[u8]) -> (s: Self)
        ensures
            s.wf(),
            s.window() == initial_window@,
    ;

    /// The checksum of the current window.
    fn checksum(&self) -> (c: u32)
        requires
            self.wf(),
        ensures
            c == Self::checksum_spec(self.window()),
    ;

    /// Extend the window on the right by one byte.
    fn push_byte(&mut self, new_byte: u8)
        requires
            old(self).wf(),
        ensures
            final(self).wf(),
            final(self).window() == old(self).window().push(new_byte),
    ;

    /// Shrink the window on the left by one byte. The caller supplies the
    /// byte being removed and the window length before the pop.
    fn pop_byte(&mut self, old_byte: u8, bytes_ago: usize)
        requires
            old(self).wf(),
            old(self).window().len() == bytes_ago,
            bytes_ago >= 1,
            old(self).window()[0] == old_byte,
        ensures
            final(self).wf(),
            final(self).window() == old(self).window().subrange(
                1,
                old(self).window().len() as int,
            ),
    ;
}

} // verus!

pub mod rolling_adler32;
