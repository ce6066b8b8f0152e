use vstd::prelude::*;

verus! {

/// Tag component that gives an entity a display label.
#[derive(Debug, Clone)]
pub struct Name(pub String);

impl Name {
    /// A label with the text of `name`.
    pub fn new(name: &str) -> (label: Name)
        ensures
            label.0@ == name@,
    {
        Name(name.to_owned())
    }
}

} // verus!
