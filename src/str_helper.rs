//! A test on the first and last characters of a text.
use vstd::prelude::*;

verus! {

pub trait StrHelper: View<V = Seq<char>> {
    /// Whether the text is at least two characters long, starts with `start_char`
    /// and ends with `end_char`.
    fn check_borders(&self, start_char: char, end_char: char) -> (r: bool)
        ensures
            r == crate::borders(self@, start_char, end_char),
    ;
}

impl StrHelper for str {
    fn check_borders(&self, start_char: char, end_char: char) -> (r: bool) {
        let n = self.unicode_len();
        if n < 2 {
            return false;
        }
        self.get_char(0) == start_char && self.get_char(n - 1) == end_char
    }
}

} // verus!
