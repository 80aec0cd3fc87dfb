//! The provider-independent metadata record of the `cloud-metadata` interface.
use vstd::prelude::*;

verus! {

/// The text of an optional string.
pub open spec fn opt_text(o: Option<String>) -> Option<Seq<char>> {
    match o {
        Some(s) => Some(s@),
        None => None,
    }
}

/// Where an instance runs: a display name, an optional short code and an
/// optional city.
pub struct Region {
    pub name: String,
    pub code: Option<String>,
    pub city: Option<String>,
}

/// What the metadata service answers about the instance it runs on.
pub struct Metadata {
    pub private_ip: String,
    pub public_ip: Option<String>,
    pub region: Region,
    pub id: String,
}

/// The error record of the metadata service.
pub struct MetadataError {
    pub message: String,
}

/// The text content of a [`Region`].
pub struct RegionView {
    pub name: Seq<char>,
    pub code: Option<Seq<char>>,
    pub city: Option<Seq<char>>,
}

/// The text content of a [`Metadata`] record.
pub struct MetadataView {
    pub private_ip: Seq<char>,
    pub public_ip: Option<Seq<char>>,
    pub region: RegionView,
    pub id: Seq<char>,
}

impl View for Region {
    type V = RegionView;

    open spec fn view(&self) -> RegionView {
        RegionView { name: self.name@, code: opt_text(self.code), city: opt_text(self.city) }
    }
}

impl View for Metadata {
    type V = MetadataView;

    open spec fn view(&self) -> MetadataView {
        MetadataView {
            private_ip: self.private_ip@,
            public_ip: opt_text(self.public_ip),
            region: self.region@,
            id: self.id@,
        }
    }
}

impl View for MetadataError {
    type V = Seq<char>;

    open spec fn view(&self) -> Seq<char> {
        self.message@
    }
}

impl Region {
    /// The region's code, or the empty text when it has none.
    pub fn code_or_empty(&self) -> (c: String)
        ensures
            c@ == match self.code {
                Some(code) => code@,
                None => Seq::<char>::empty(),
            },
    {
        match &self.code {
            Some(code) => code.clone(),
            None => String::new(),
        }
    }
}

} // verus!
