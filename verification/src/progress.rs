//! The progress counter behind the textual progress bar: how many units
//! are done, how many columns the bar spans, and the bar's text. Writing
//! the text to the terminal, and its color, stay with the caller.

use vstd::prelude::*;

use crate::text::string_of;

verus! {

/// `n` copies of `c`.
pub open spec fn char_repeat(c: char, n: int) -> Seq<char> {
    Seq::new(n as nat, |i: int| c)
}

/// A vector of `n` copies of `c`.
fn fill_chars(c: char, n: usize) -> (r: Vec<char>)
    ensures
        r@ == char_repeat(c, n as int),
{
    let mut r: Vec<char> = Vec::new();
    let mut i: usize = 0;
    while i < n
        invariant
            i <= n,
            r@ == char_repeat(c, i as int),
        decreases n - i,
    {
        r.push(c);
        assert(r@ =~= char_repeat(c, i + 1 as int));
        i += 1;
    }
    r
}

/// The progress counter: `current` completed units out of the total the
/// bar was created for, drawn as `width` columns filled one per `step`
/// units.
pub struct Progress {
    pub width: usize,
    pub step: usize,
    pub current: usize,
}

/// How many columns of the bar are filled.
pub open spec fn filled_columns(p: Progress) -> int {
    if p.step == 0 {
        0
    } else {
        p.current as int / p.step as int
    }
}

impl Progress {
    /// A counter for `max` units of work: the bar spans at most thirty
    /// columns, and each column stands for `max / width` units. For zero
    /// units of work the bar has no columns.
    pub fn new(max: usize) -> (p: Progress)
        ensures
            p.width == if max < 30 {
                max
            } else {
                30
            },
            p.step == if p.width == 0 {
                0
            } else {
                max / p.width
            },
            p.current == 0,
    {
        let width: usize = if max < 30 {
            max
        } else {
            30
        };
        let step: usize = if width == 0 {
            0
        } else {
            max / width
        };
        Progress { width, step, current: 0 }
    }

    /// One more unit is done.
    pub fn advance(&mut self)
        requires
            old(self).current < usize::MAX,
        ensures
            final(self).current == old(self).current + 1,
            final(self).width == old(self).width,
            final(self).step == old(self).step,
    {
        self.current = self.current + 1;
    }

    /// The bar's text: the filled columns as `#`, the rest as spaces,
    /// between brackets. Once the filled count has outgrown the bar —
    /// more units were reported done than the bar was created for —
    /// there is nothing sensible to draw and `None` is returned.
    pub fn render(&self) -> (r: Option<String>)
        ensures
            filled_columns(*self) > self.width as int ==> r is None,
            filled_columns(*self) <= self.width as int ==> (r matches Some(s) && s@ == seq!['[']
                + char_repeat('#', filled_columns(*self)) + char_repeat(
                ' ',
                self.width as int - filled_columns(*self),
            ) + seq![']']),
    {
        let filled: usize = if self.step == 0 {
            0
        } else {
            self.current / self.step
        };
        if filled > self.width {
            return None;
        }
        let mut out: Vec<char> = Vec::new();
        out.push('[');
        let hashes = fill_chars('#', filled);
        let blanks = fill_chars(' ', self.width - filled);
        let mut j: usize = 0;
        proof {
            assert(out@ =~= seq!['[']);
        }
        while j < hashes.len()
            invariant
                j <= hashes@.len(),
                hashes@ == char_repeat('#', filled as int),
                out@ == seq!['['] + hashes@.subrange(0, j as int),
            decreases hashes@.len() - j,
        {
            out.push(hashes[j]);
            assert(out@ =~= seq!['['] + hashes@.subrange(0, j + 1 as int));
            j += 1;
        }
        assert(hashes@.subrange(0, j as int) =~= hashes@);
        let mut k: usize = 0;
        let ghost mid = out@;
        while k < blanks.len()
            invariant
                k <= blanks@.len(),
                blanks@ == char_repeat(' ', self.width as int - filled as int),
                out@ == mid + blanks@.subrange(0, k as int),
            decreases blanks@.len() - k,
        {
            out.push(blanks[k]);
            assert(out@ =~= mid + blanks@.subrange(0, k + 1 as int));
            k += 1;
        }
        assert(blanks@.subrange(0, k as int) =~= blanks@);
        out.push(']');
        assert(out@ =~= seq!['['] + char_repeat('#', filled as int) + char_repeat(
            ' ',
            self.width as int - filled as int,
        ) + seq![']']);
        Some(string_of(&out))
    }
}

} // verus!
