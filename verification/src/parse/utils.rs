//! Small helpers of the readers.
use vstd::prelude::*;

verus! {

/// None, one or two values.
pub enum UpToTwo<T> {
    Zero,
    One(T),
    Two(T, T),
}

impl<T> UpToTwo<T> {
    /// The values, in order.
    pub open spec fn items(self) -> Seq<T> {
        match self {
            UpToTwo::Zero => seq![],
            UpToTwo::One(x) => seq![x],
            UpToTwo::Two(x, y) => seq![x, y],
        }
    }

    /// `v` with the values added at its end.
    pub fn push_to(self, v: Vec<T>) -> (r: Vec<T>)
        ensures
            r@ == v@ + self.items(),
    {
        let mut v = v;
        let ghost start = v@;
        match self {
            UpToTwo::Zero => {
                assert(v@ =~= start + seq![]);
            },
            UpToTwo::One(x) => {
                v.push(x);
                assert(v@ =~= start + seq![x]);
            },
            UpToTwo::Two(x, y) => {
                v.push(x);
                v.push(y);
                assert(v@ =~= start + seq![x, y]);
            },
        }
        v
    }

    /// The values in a vector.
    pub fn to_vec(self) -> (r: Vec<T>)
        ensures
            r@ == self.items(),
    {
        let ghost items = self.items();
        let r = self.push_to(Vec::new());
        assert(r@ =~= items);
        r
    }
}

} // verus!
