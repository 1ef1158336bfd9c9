use vstd::prelude::*;

verus! {

/// A compact `Option<usize>`: the low bit says whether a value is present,
/// the remaining bits hold it.
#[derive(Debug, Clone, Copy)]
pub struct OptUsize {
    data: usize,
}

impl View for OptUsize {
    type V = Option<usize>;

    closed spec fn view(&self) -> Option<usize> {
        if self.data % 2 == 1 { Some((self.data / 2) as usize) } else { None }
    }
}

impl OptUsize {
    pub fn none() -> (r: Self)
        ensures
            r@ == None::<usize>,
    {
        Self { data: 0 }
    }

    /// Values up to half the range of `usize` fit beside the flag bit; of a
    /// larger value the top bit is shifted out and lost.
    pub fn some(data: usize) -> (r: Self)
        ensures
            r@ == Some((data as int % (usize::MAX as int / 2 + 1)) as usize),
            data <= usize::MAX / 2 ==> r@ == Some(data),
    {
        let kept: usize = data % (usize::MAX / 2 + 1);
        if data <= usize::MAX / 2 {
            proof {
            vstd::arithmetic::div_mod::lemma_small_mod(data as nat, (usize::MAX / 2 + 1) as nat);
            }
        }
        Self { data: kept * 2 + 1 }
    }

    pub fn get(&self) -> (r: Option<usize>)
        ensures
            r == self@,
    {
        if self.data % 2 == 1 {
            Some(self.data / 2)
        } else {
            None
        }
    }
}

} // verus!
