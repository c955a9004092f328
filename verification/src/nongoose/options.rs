use vstd::prelude::*;

verus! {

/// Options of a find-by-id lookup.
#[derive(Clone, Copy, Debug, Eq, PartialEq, Structural)]
pub struct FindByIdOptions {
    /// Whether the lookup should also populate relation fields.
    pub with_relations: bool,
}

impl Default for FindByIdOptions {
    /// By default relations are not populated.
    fn default() -> (r: FindByIdOptions)
        ensures
            r.with_relations == false,
    {
        FindByIdOptions { with_relations: false }
    }
}

impl FindByIdOptions {
    /// A fresh options value with the defaults.
    pub fn build() -> (r: FindByIdOptions)
        ensures
            r.with_relations == false,
    {
        FindByIdOptions::default()
    }

    /// Choose whether the lookup populates relation fields.
    pub fn with_relations(self, status: bool) -> (r: FindByIdOptions)
        ensures
            r.with_relations == status,
    {
        FindByIdOptions { with_relations: status }
    }
}

} // verus!
