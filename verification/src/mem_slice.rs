//! An owned, ordered copy of values read from a region.

use vstd::prelude::*;

verus! {

/// Values copied out of a region, in ascending address order.
pub struct MemSlice<T> {
    pub stub: Vec<T>,
}

impl<T> View for MemSlice<T> {
    type V = Seq<T>;

    open spec fn view(&self) -> Seq<T> {
        self.stub@
    }
}

impl PartialEq for MemSlice<u8> {
    fn eq(&self, other: &Self) -> (r: bool) {
        if self.stub.len() != other.stub.len() {
            return false;
        }
        let n: usize = self.stub.len();
        let mut i: usize = 0;
        while i < n
            invariant
                i <= n,
                n == self.stub@.len(),
                n == other.stub@.len(),
                forall|j: int| 0 <= j < i ==> self.stub@[j] == other.stub@[j],
            decreases n - i,
        {
            if self.stub[i] != other.stub[i] {
                return false;
            }
            i += 1;
        }
        assert(self.stub@ =~= other.stub@);
        true
    }
}

impl vstd::std_specs::cmp::PartialEqSpecImpl for MemSlice<u8> {
    open spec fn obeys_eq_spec() -> bool {
        true
    }

    open spec fn eq_spec(&self, other: &Self) -> bool {
        self.stub@ == other.stub@
    }
}

impl Eq for MemSlice<u8> {

}

} // verus!
