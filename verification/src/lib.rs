//! An extensible text-diff library.
//!
//! Two input texts, an "old" and a "new" one, are compared by a pluggable
//! diff algorithm (a [`Language`]); every fragment of the result is tagged
//! with its [`Provenance`] (old-only, shared, or new-only), adjacent
//! fragments of equal provenance are merged by the coalescing transform,
//! and the tagged segments are turned into display text by a pluggable
//! renderer (a [`Presentation`]). Components of either kind are collected
//! into a name-keyed [`registry::Registry`] in which the earliest
//! registration of a name always wins.

use vstd::prelude::*;

pub mod segment;
pub mod language;
pub mod presentation;
pub mod registry;
pub mod discovery;
pub mod input;

pub use language::Language;
pub use language::SimpleLinewise;
pub use language::SimpleCharwise;
pub use presentation::Presentation;
pub use presentation::BasicColored;
pub use presentation::BasicStyled;
pub use registry::Registry;

verus! {

/// Classification of a diff fragment: it occurs only in the old input,
/// in both inputs, or only in the new input. Totally ordered as
/// `Old < Shared < New`.
#[derive(Clone, Copy, Debug, PartialEq, Eq, PartialOrd, Ord, Hash, Structural)]
pub enum Provenance {
    Old,
    Shared,
    New,
}

impl Provenance {
    /// The fragment occurs in the old input (it is not new-only).
    pub open spec fn spec_is_old(self) -> bool {
        self != Provenance::New
    }

    /// The fragment occurs only in the old input.
    pub open spec fn spec_is_old_only(self) -> bool {
        self == Provenance::Old
    }

    /// The fragment occurs in the new input (it is not old-only).
    pub open spec fn spec_is_new(self) -> bool {
        self != Provenance::Old
    }

    /// The fragment occurs only in the new input.
    pub open spec fn spec_is_new_only(self) -> bool {
        self == Provenance::New
    }

    /// The fragment occurs in both inputs.
    pub open spec fn spec_is_shared(self) -> bool {
        self == Provenance::Shared
    }

    /// The fragment occurs in only one of the inputs.
    pub open spec fn spec_is_unshared(self) -> bool {
        self != Provenance::Shared
    }

    pub fn is_old(&self) -> (r: bool)
        ensures
            r == self.spec_is_old(),
    {
        *self != Provenance::New
    }

    pub fn is_old_only(&self) -> (r: bool)
        ensures
            r == self.spec_is_old_only(),
    {
        *self == Provenance::Old
    }

    pub fn is_new(&self) -> (r: bool)
        ensures
            r == self.spec_is_new(),
    {
        *self != Provenance::Old
    }

    pub fn is_new_only(&self) -> (r: bool)
        ensures
            r == self.spec_is_new_only(),
    {
        *self == Provenance::New
    }

    pub fn is_shared(&self) -> (r: bool)
        ensures
            r == self.spec_is_shared(),
    {
        *self == Provenance::Shared
    }

    pub fn is_unshared(&self) -> (r: bool)
        ensures
            r == self.spec_is_unshared(),
    {
        *self != Provenance::Shared
    }
}

/// The capability shared by every pluggable component: it identifies
/// itself by a registry name and a human-readable description, both
/// constant for a given instance.
pub trait ExtensionPoint {
    /// The registry key of this component.
    spec fn spec_name(&self) -> Seq<char>;

    /// The description of this component.
    spec fn spec_description(&self) -> Seq<char>;

    fn name(&self) -> (r: String)
        ensures
            r@ == self.spec_name(),
    ;

    fn description(&self) -> (r: String)
        ensures
            r@ == self.spec_description(),
    ;
}

} // verus!
