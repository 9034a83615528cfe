use vstd::prelude::*;

verus! {

/// A record key made of one value per key column, kept apart so that
/// `("A", "BC")` and `("AB", "C")` stay different keys.
#[derive(Debug, Clone, PartialEq, Eq, Hash)]
pub struct CompositeKey(pub Vec<String>);

impl View for CompositeKey {
    type V = Seq<Seq<char>>;

    open spec fn view(&self) -> Seq<Seq<char>> {
        self.0.deep_view()
    }
}

} // verus!
