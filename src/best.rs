//! Choosing the best sample: qualities are non-negative `f64` values given
//! by their bit patterns, on which the order of finite values is the order of
//! the patterns.
use vstd::prelude::*;

verus! {

/// A quality pattern that stands for a finite, non-negative value.
pub open spec fn usable(q: u64) -> bool {
    q < 0x7FF0_0000_0000_0000
}

/// The largest usable quality among the first `n`, or zero if there is none.
pub open spec fn best_quality(qs: Seq<u64>, n: int) -> u64
    decreases n,
{
    if n <= 0 {
        0
    } else {
        let b = best_quality(qs, n - 1);
        if usable(qs[n - 1]) && qs[n - 1] > b {
            qs[n - 1]
        } else {
            b
        }
    }
}

/// The best sample seen so far: its quality pattern and its position in
/// completion order.
#[derive(Clone, Copy, Debug, PartialEq, Eq, Structural)]
pub struct Best {
    pub quality: u64,
    pub index: Option<usize>,
}

impl Best {
    /// Nothing seen yet: quality zero.
    pub fn new() -> (r: Best)
        ensures
            r.quality == 0,
            r.index is None,
    {
        Best { quality: 0, index: None }
    }

    /// Records sample `i` with quality `q`; it replaces the best one only when
    /// it is usable and strictly better, so ties keep the earlier sample.
    /// Returns whether it did.
    pub fn offer(&mut self, q: u64, i: usize) -> (r: bool)
        ensures
            r == (usable(q) && q > old(self).quality),
            *final(self) == if r {
                Best { quality: q, index: Some(i) }
            } else {
                *old(self)
            },
    {
        if q < 0x7FF0_0000_0000_0000 && q > self.quality {
            self.quality = q;
            self.index = Some(i);
            true
        } else {
            false
        }
    }
}

/// The best of the qualities `qs`, in completion order.
pub fn best_of(qs: &Vec<u64>) -> (r: Best)
    ensures
        r.quality == best_quality(qs@, qs.len() as int),
        r.index matches Some(i) ==> i < qs.len() && qs@[i as int] == r.quality,
        r.index is None ==> r.quality == 0,
        r.index matches Some(i) ==> forall|j: int| 0 <= j < i ==> !(usable(qs@[j]) && qs@[j] == r.quality),
{
    let mut b = Best::new();
    let mut i: usize = 0;
    while i < qs.len()
        invariant
            i <= qs.len(),
            b.quality == best_quality(qs@, i as int),
            b.index matches Some(k) ==> k < i && qs@[k as int] == b.quality,
            b.index is None ==> b.quality == 0,
            b.index matches Some(k) ==> forall|j: int| 0 <= j < k ==> !(usable(qs@[j]) && qs@[j] == b.quality),
            forall|j: int| 0 <= j < i && usable(qs@[j]) ==> qs@[j] <= b.quality,
        decreases qs.len() - i,
    {
        b.offer(qs[i], i);
        i = i + 1;
    }
    b
}

/// The best quality is zero or one of the usable qualities, and no usable
/// quality exceeds it.
pub proof fn lemma_best_is_maximum(qs: Seq<u64>, n: int)
    requires
        0 <= n <= qs.len(),
    ensures
        forall|j: int| 0 <= j < n && usable(qs[j]) ==> qs[j] <= best_quality(qs, n),
        best_quality(qs, n) == 0 || exists|j: int|
            0 <= j < n && usable(qs[j]) && qs[j] == best_quality(qs, n),
    decreases n,
{
    if n > 0 {
        lemma_best_is_maximum(qs, n - 1);
        if usable(qs[n - 1]) && qs[n - 1] > best_quality(qs, n - 1) {
            assert(usable(qs[n - 1]) && qs[n - 1] == best_quality(qs, n));
        }
    }
}

} // verus!
