use vstd::prelude::*;

verus! {

/// The outcome of polling one of the library's futures once: either the
/// future has finished with a value, or it is not done yet.
pub enum Poll<T> {
    Ready(T),
    Pending,
}

impl<T> Poll<T> {
    /// Whether this outcome is `Pending`.
    pub fn is_pending(&self) -> (r: bool)
        ensures
            r == (self is Pending),
    {
        match self {
            Poll::Ready(_) => false,
            Poll::Pending => true,
        }
    }
}

} // verus!
