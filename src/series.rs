//! A labelled, non-empty sequence of fixed-point samples. Each sample is an
//! integer count of a unit that the caller picks (thousandths, say), so
//! every cost computed from them is exact.
use vstd::prelude::*;

verus! {

pub struct Sequence {
    label: String,
    samples: Vec<i32>,
}

impl View for Sequence {
    type V = Seq<i32>;

    /// The samples, in order.
    closed spec fn view(&self) -> Seq<i32> {
        self.samples@
    }
}

impl Sequence {
    #[verifier::type_invariant]
    spec fn inv(&self) -> bool {
        self.samples@.len() >= 1
    }

    /// The label's text.
    pub closed spec fn label_view(&self) -> Seq<char> {
        self.label@
    }

    /// A sequence of `samples` named `label`; `None` when `samples` is empty.
    pub fn new(label: String, samples: Vec<i32>) -> (r: Option<Sequence>)
        ensures
            r is None <==> samples@.len() == 0,
            r matches Some(s) ==> s@ == samples@ && s.label_view() == label@,
    {
        if samples.len() == 0 {
            None
        } else {
            Some(Sequence { label, samples })
        }
    }

    pub fn label(&self) -> (r: &str)
        ensures
            r@ == self.label_view(),
    {
        self.label.as_str()
    }

    pub fn samples(&self) -> (r: &[i32])
        ensures
            r@ == self@,
            r@.len() >= 1,
    {
        proof {
            use_type_invariant(self);
        }
        self.samples.as_slice()
    }

    /// Number of samples.
    pub fn length(&self) -> (r: usize)
        ensures
            r == self@.len(),
            r >= 1,
    {
        proof {
            use_type_invariant(self);
        }
        self.samples.len()
    }

    /// The sample at `idx`.
    pub fn at(&self, idx: usize) -> (r: i32)
        requires
            idx < self@.len(),
        ensures
            r == self@[idx as int],
    {
        self.samples[idx]
    }
}

} // verus!
