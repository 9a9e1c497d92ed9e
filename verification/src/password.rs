//! How a line is shown while a password is typed.

use crate::text::{byte_len, spaces, str_byte_len};
use vstd::prelude::*;
use vstd::string::*;

verus! {

/// Shows a line as it is, or as blanks where the flag is set.
#[derive(Debug, Clone, Copy, PartialEq, Eq, Structural)]
pub struct PasswordHelper(pub bool);

impl PasswordHelper {
    /// What is shown for a line: the line itself, or one blank for every
    /// byte of it where the line is hidden.
    pub open spec fn shown(self, line: Seq<char>) -> Seq<char> {
        if self.0 {
            spaces(byte_len(line))
        } else {
            line
        }
    }

    /// What is shown for a line.
    pub fn highlight(&self, line: &str) -> (r: String)
        ensures
            r@ == self.shown(line@),
    {
        if self.0 {
            let n = str_byte_len(line);
            let mut out = String::new();
            let mut k: usize = 0;
            assert(out@ =~= spaces(0));
            while k < n
                invariant
                    k <= n,
                    out@ == spaces(k as nat),
                decreases n - k,
            {
                out.push(' ');
                k = k + 1;
                assert(out@ =~= spaces(k as nat));
            }
            out
        } else {
            String::from_str(line)
        }
    }

    /// Whether the line must be shown anew after each character: it must
    /// where the line is hidden.
    pub fn highlight_char(&self) -> (r: bool)
        ensures
            r == self.0,
    {
        self.0
    }
}

} // verus!
