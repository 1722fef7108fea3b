//! The abstract syntax tree of the two constructs.
//!
//! A grouped-union declaration is metadata, a visibility marker, the wire
//! name and an ordered list of groups; each group is a name and an ordered
//! list of variants; each variant is its own metadata, a name and an opaque
//! payload type.  A dispatch expression is a subject value, the wire name it
//! refers to, and an ordered list of arms.  Attribute bodies, payload types,
//! binding patterns and arm bodies are opaque token spans, re-emitted
//! verbatim by the generator.

use vstd::prelude::*;

use crate::token::Tok;
use crate::token::TokV;

verus! {

/// One variant of a group: `#[attrs...] Name(Type)`.
#[derive(Debug, Clone)]
pub struct ParsedVariant {
    /// The bracketed body of each attribute, in order.
    pub attrs: Vec<Vec<Tok>>,
    /// The variant's name.
    pub name: Vec<char>,
    /// The payload type, as an opaque token span.
    pub ty: Vec<Tok>,
}

/// The mathematical shape of a variant.
pub struct VariantV {
    pub attrs: Seq<Seq<TokV>>,
    pub name: Seq<char>,
    pub ty: Seq<TokV>,
}

impl View for ParsedVariant {
    type V = VariantV;

    open spec fn view(&self) -> VariantV {
        VariantV { attrs: self.attrs.deep_view(), name: self.name@, ty: self.ty.deep_view() }
    }
}

impl DeepView for ParsedVariant {
    type V = VariantV;

    open spec fn deep_view(&self) -> VariantV {
        self.view()
    }
}

/// One group: `Name { Variant, ... }`.  A group may be empty.
#[derive(Debug, Clone)]
pub struct ParsedGroup {
    pub name: Vec<char>,
    pub variants: Vec<ParsedVariant>,
}

/// The mathematical shape of a group.
pub struct GroupV {
    pub name: Seq<char>,
    pub variants: Seq<VariantV>,
}

impl View for ParsedGroup {
    type V = GroupV;

    open spec fn view(&self) -> GroupV {
        GroupV { name: self.name@, variants: self.variants.deep_view() }
    }
}

impl DeepView for ParsedGroup {
    type V = GroupV;

    open spec fn deep_view(&self) -> GroupV {
        self.view()
    }
}

/// The visibility marker of the declaration, applied to every generated
/// item: nothing, `pub`, or `pub(...)` with an opaque restriction.
#[derive(Debug, Clone)]
pub enum Visibility {
    Private,
    Pub,
    PubRestricted(Vec<Tok>),
}

/// The mathematical shape of a visibility marker.
pub enum VisibilityV {
    Private,
    Pub,
    PubRestricted(Seq<TokV>),
}

impl View for Visibility {
    type V = VisibilityV;

    open spec fn view(&self) -> VisibilityV {
        match self {
            Visibility::Private => VisibilityV::Private,
            Visibility::Pub => VisibilityV::Pub,
            Visibility::PubRestricted(s) => VisibilityV::PubRestricted(s.deep_view()),
        }
    }
}

/// A whole grouped-union declaration.
#[derive(Debug, Clone)]
pub struct EnumGroupInput {
    /// Declaration-level metadata, replicated onto every generated enum.
    pub attrs: Vec<Vec<Tok>>,
    /// Visibility, applied to every generated item.
    pub vis: Visibility,
    /// The wire name; the dispatch enum is named after it.
    pub name: Vec<char>,
    /// The groups, in declaration order.
    pub groups: Vec<ParsedGroup>,
}

/// The mathematical shape of a declaration.
pub struct InputV {
    pub attrs: Seq<Seq<TokV>>,
    pub vis: VisibilityV,
    pub name: Seq<char>,
    pub groups: Seq<GroupV>,
}

impl View for EnumGroupInput {
    type V = InputV;

    open spec fn view(&self) -> InputV {
        InputV {
            attrs: self.attrs.deep_view(),
            vis: self.vis@,
            name: self.name@,
            groups: self.groups.deep_view(),
        }
    }
}

/// One arm of a dispatch expression: `GroupName(pattern) => body`.
#[derive(Debug, Clone)]
pub struct MatchArm {
    pub group_name: Vec<char>,
    /// The binding pattern, as an opaque token span (possibly empty).
    pub binding: Vec<Tok>,
    /// The arm's body expression, as an opaque token span.
    pub body: Vec<Tok>,
}

/// The mathematical shape of an arm.
pub struct ArmV {
    pub group_name: Seq<char>,
    pub binding: Seq<TokV>,
    pub body: Seq<TokV>,
}

impl View for MatchArm {
    type V = ArmV;

    open spec fn view(&self) -> ArmV {
        ArmV {
            group_name: self.group_name@,
            binding: self.binding.deep_view(),
            body: self.body.deep_view(),
        }
    }
}

impl DeepView for MatchArm {
    type V = ArmV;

    open spec fn deep_view(&self) -> ArmV {
        self.view()
    }
}

/// A whole dispatch expression: subject value, wire name, arms.
#[derive(Debug, Clone)]
pub struct MatchInput {
    pub value: Vec<Tok>,
    pub wire: Vec<char>,
    pub arms: Vec<MatchArm>,
}

/// The mathematical shape of a dispatch expression.
pub struct MatchInputV {
    pub value: Seq<TokV>,
    pub wire: Seq<char>,
    pub arms: Seq<ArmV>,
}

impl View for MatchInput {
    type V = MatchInputV;

    open spec fn view(&self) -> MatchInputV {
        MatchInputV {
            value: self.value.deep_view(),
            wire: self.wire@,
            arms: self.arms.deep_view(),
        }
    }
}

} // verus!
