//! Candidates offered to the user as mirroring source or target.

use vstd::prelude::*;

verus! {

/// Whether a candidate is an application stream or a device.
#[derive(Clone, Copy, Debug, PartialEq, Eq, Structural)]
pub enum CandidateType {
    Application,
    Device,
}

impl Default for CandidateType {
    fn default() -> (r: Self)
        ensures
            r == CandidateType::Application,
    {
        CandidateType::Application
    }
}

/// The raw code of a candidate type.
pub open spec fn raw_of(kind: CandidateType) -> u32 {
    match kind {
        CandidateType::Application => 0,
        CandidateType::Device => 1,
    }
}

/// The candidate type of a raw code; unknown codes mean an application.
pub open spec fn kind_of(raw: u32) -> CandidateType {
    if raw == 1 {
        CandidateType::Device
    } else {
        CandidateType::Application
    }
}

impl CandidateType {
    pub fn as_raw(&self) -> (r: u32)
        ensures
            r == raw_of(*self),
    {
        match self {
            CandidateType::Application => 0,
            CandidateType::Device => 1,
        }
    }

    pub fn from_raw(raw: u32) -> (r: Self)
        ensures
            r == kind_of(raw),
    {
        match raw {
            0 => CandidateType::Application,
            1 => CandidateType::Device,
            _ => CandidateType::Application,
        }
    }

    /// The icon shown for a candidate of this type.
    pub fn icon_name(&self) -> (r: &'static str)
        ensures
            *self == CandidateType::Application ==> r@ == "application-x-executable-symbolic"@,
            *self == CandidateType::Device ==> r@ == "audio-card-symbolic"@,
    {
        match self {
            CandidateType::Application => "application-x-executable-symbolic",
            CandidateType::Device => "audio-card-symbolic",
        }
    }
}

/// A type survives the trip through its raw code.
pub proof fn law_kind_raw_roundtrip(kind: CandidateType)
    ensures
        kind_of(raw_of(kind)) == kind,
{
}

/// Every code that a type produces is read back as that code.
pub proof fn law_raw_kind_roundtrip(raw: u32)
    requires
        raw <= 1,
    ensures
        raw_of(kind_of(raw)) == raw,
{
}

/// Abstract contents of a [`CandidateData`].
pub struct CandidateView {
    pub id: u32,
    pub kind: CandidateType,
    pub label: Seq<char>,
}

/// A selectable node: its id, its type and the label shown for it.
pub struct CandidateData {
    id: u32,
    kind: CandidateType,
    label: String,
}

impl View for CandidateData {
    type V = CandidateView;

    closed spec fn view(&self) -> CandidateView {
        CandidateView { id: self.id, kind: self.kind, label: self.label@ }
    }
}

impl Clone for CandidateData {
    fn clone(&self) -> (r: Self)
        ensures
            r@ == self@,
    {
        CandidateData { id: self.id, kind: self.kind, label: self.label.clone() }
    }
}

impl Default for CandidateData {
    fn default() -> (r: Self)
        ensures
            r@ == (CandidateView {
                id: 0,
                kind: CandidateType::Application,
                label: Seq::empty(),
            }),
    {
        CandidateData { id: 0, kind: CandidateType::Application, label: String::new() }
    }
}

impl CandidateData {
    pub fn new(id: u32, kind: CandidateType, label: String) -> (r: Self)
        ensures
            r@ == (CandidateView { id, kind, label: label@ }),
    {
        CandidateData { id, kind, label }
    }

    pub fn id(&self) -> (r: u32)
        ensures
            r == self@.id,
    {
        self.id
    }

    pub fn set_id(&mut self, id: u32)
        ensures
            final(self)@ == (CandidateView { id, ..old(self)@ }),
    {
        self.id = id;
    }

    pub fn kind(&self) -> (r: CandidateType)
        ensures
            r == self@.kind,
    {
        self.kind
    }

    pub fn set_kind(&mut self, kind: CandidateType)
        ensures
            final(self)@ == (CandidateView { kind, ..old(self)@ }),
    {
        self.kind = kind;
    }

    pub fn label(&self) -> (r: String)
        ensures
            r@ == self@.label,
    {
        self.label.clone()
    }

    pub fn set_label(&mut self, label: String)
        ensures
            final(self)@ == (CandidateView { label: label@, ..old(self)@ }),
    {
        self.label = label;
    }
}

} // verus!
