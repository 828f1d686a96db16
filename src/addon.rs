use vstd::prelude::*;

verus! {

/// What an addon is, as plain values.
pub struct AddonView {
    pub name: Seq<char>,
    pub version: Seq<char>,
    pub location: Option<Seq<char>>,
}

/// An addon: a named, versioned package of type definitions.
///
/// `location` is a relative path on disk; it is `None` for addons known only
/// from the online registry. Two addons with the same name and version are
/// the same addon, wherever they are located.
#[derive(Debug, Clone, Eq)]
pub struct Addon {
    pub name: String,
    pub version: String,
    pub location: Option<String>,
}

pub open spec fn option_view(o: Option<String>) -> Option<Seq<char>> {
    match o {
        Some(s) => Some(s@),
        None => None,
    }
}

impl View for Addon {
    type V = AddonView;

    open spec fn view(&self) -> AddonView {
        AddonView { name: self.name@, version: self.version@, location: option_view(self.location) }
    }
}

impl PartialEq for Addon {
    fn eq(&self, other: &Addon) -> (r: bool)
        ensures
            r == (self.name@ == other.name@ && self.version@ == other.version@),
    {
        self.name == other.name && self.version == other.version
    }
}

impl vstd::std_specs::cmp::PartialEqSpecImpl for Addon {
    open spec fn obeys_eq_spec() -> bool {
        true
    }

    open spec fn eq_spec(&self, other: &Addon) -> bool {
        self.name@ == other.name@ && self.version@ == other.version@
    }
}

} // verus!
