use vstd::prelude::*;
use crate::chars::string_push;

verus! {

/// The text of `n` copies of `c`, which `write_repeated_char` writes.
pub fn repeated_char(c: char, n: usize) -> (s: String)
    ensures
        s@ == Seq::new(n as nat, |i: int| c),
{
    let mut s = String::new();
    let mut i: usize = 0;
    while i < n
        invariant
            i <= n,
            s@ == Seq::new(i as nat, |k: int| c),
        decreases n - i,
    {
        string_push(&mut s, c);
        i = i + 1;
        assert(s@ =~= Seq::new(i as nat, |k: int| c));
    }
    s
}

} // verus!
