//! View-preserving cloning.  `DeepClone` is the library's own small trait:
//! a clone whose result has the same deep view as the original.  Record
//! types implement it field by field, and `Clone` impls forward to it.

use vstd::prelude::*;

verus! {

/// A clone that provably preserves the deep view.
pub trait DeepClone: DeepView + Sized {
    fn deep_clone(&self) -> (res: Self)
        ensures
            res.deep_view() == self.deep_view(),
    ;
}

impl DeepClone for String {
    fn deep_clone(&self) -> (res: Self)
        ensures
            res.deep_view() == self.deep_view(),
    {
        self.clone()
    }
}

impl DeepClone for u32 {
    fn deep_clone(&self) -> (res: Self)
        ensures
            res.deep_view() == self.deep_view(),
    {
        *self
    }
}

impl DeepClone for u64 {
    fn deep_clone(&self) -> (res: Self)
        ensures
            res.deep_view() == self.deep_view(),
    {
        *self
    }
}

impl<T: DeepClone> DeepClone for Option<T> {
    fn deep_clone(&self) -> (res: Self)
        ensures
            res.deep_view() == self.deep_view(),
    {
        match self {
            Some(x) => Some(x.deep_clone()),
            None => None,
        }
    }
}

impl<T: DeepClone> DeepClone for Vec<T> {
    fn deep_clone(&self) -> (res: Self)
        ensures
            res.deep_view() == self.deep_view(),
    {
        let mut r: Vec<T> = Vec::new();
        let mut i: usize = 0;
        while i < self.len()
            invariant
                i <= self.len(),
                r@.len() == i,
                r.deep_view() == self.deep_view().take(i as int),
            decreases self.len() - i,
        {
            let ghost prev_seq = r@;
            let ghost prev_view = r.deep_view();
            let x = self[i].deep_clone();
            r.push(x);
            proof {
                assert forall|j: int| 0 <= j <= i implies r.deep_view()[j]
                    == self.deep_view().take(i + 1)[j] by {
                    assert(r.deep_view()[j] == r@[j].deep_view());
                    if j < i {
                        assert(r@[j] == prev_seq[j]);
                        assert(prev_seq[j].deep_view() == prev_view[j]);
                        assert(prev_view[j] == self.deep_view()[j]);
                    } else {
                        assert(r@[j] == x);
                        assert(x.deep_view() == self.deep_view()[j]);
                    }
                }
                assert(r.deep_view() =~= self.deep_view().take(i + 1));
            }
            i = i + 1;
        }
        assert(r.deep_view() =~= self.deep_view());
        r
    }
}

/// Relies on String::push of std: appends the one character.
#[verifier::external_body]
pub fn push_char(s: &mut String, c: char)
    ensures
        final(s)@ == old(s)@.push(c),
{
    s.push(c);
}

} // verus!
