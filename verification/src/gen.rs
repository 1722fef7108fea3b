//! The code generator for a grouped-union declaration.
//!
//! From a parsed declaration it deterministically emits, in this order:
//! one enum per group, the flattened wire enum, the dispatch enum named
//! `<WireName>Group`, an inherent `into_group` conversion on the wire enum
//! that is total by construction, and an implementation of the `EnumGroup`
//! trait that delegates to it.  Declaration-level metadata and the
//! visibility marker are replicated onto every generated item; iteration
//! is strictly in declaration order.
//!
//! The whole output is pinned by [`define_output`]: a specification-level
//! text function over the declaration's view, which the executable
//! generator is proved to produce character for character.

use vstd::prelude::*;

use crate::token::Tok;
use crate::token::TokV;
use crate::token::push_str;
use crate::token::push_chars;
use crate::token::render_toks;
use crate::token::render_toks_into;
use crate::ast::ParsedVariant;
use crate::ast::VariantV;
use crate::ast::ParsedGroup;
use crate::ast::GroupV;
use crate::ast::Visibility;
use crate::ast::VisibilityV;
use crate::ast::EnumGroupInput;
use crate::ast::InputV;

verus! {

broadcast use vstd::seq::group_seq_axioms;

/// The dispatch enum's name: the wire name followed by `Group`, a fixed
/// convention and a pure function of the wire name.
pub open spec fn dispatch_name(wire: Seq<char>) -> Seq<char> {
    wire + "Group"@
}

/// One attribute, printed on its own line.
pub open spec fn attr_line(a: Seq<TokV>) -> Seq<char> {
    "#["@ + render_toks(a, 0) + "]\n"@
}

/// An attribute list, from position `k` on.
pub open spec fn attrs_text(attrs: Seq<Seq<TokV>>, k: int) -> Seq<char>
    decreases attrs.len() - k,
{
    if 0 <= k < attrs.len() {
        attr_line(attrs[k]) + attrs_text(attrs, k + 1)
    } else {
        Seq::empty()
    }
}

/// The visibility marker as printed before `enum` or `fn`.
pub open spec fn vis_text(v: VisibilityV) -> Seq<char> {
    match v {
        VisibilityV::Private => Seq::empty(),
        VisibilityV::Pub => "pub "@,
        VisibilityV::PubRestricted(s) => "pub("@ + render_toks(s, 0) + ") "@,
    }
}

/// One variant as a member of an enum: its own attributes, its name and
/// its payload type.
pub open spec fn variant_text(v: VariantV) -> Seq<char> {
    attrs_text(v.attrs, 0) + v.name + "("@ + render_toks(v.ty, 0) + "),\n"@
}

/// A run of variants, from position `k` on.
pub open spec fn variants_text(vs: Seq<VariantV>, k: int) -> Seq<char>
    decreases vs.len() - k,
{
    if 0 <= k < vs.len() {
        variant_text(vs[k]) + variants_text(vs, k + 1)
    } else {
        Seq::empty()
    }
}

/// The enum generated for one group: the declaration's metadata and
/// visibility, the group's name, and exactly that group's variants in
/// declaration order.
pub open spec fn group_enum_text(d: InputV, g: GroupV) -> Seq<char> {
    attrs_text(d.attrs, 0) + vis_text(d.vis) + "enum "@ + g.name + " {\n"@ + variants_text(
        g.variants,
        0,
    ) + "}\n"@
}

/// The group enums, from group `k` on, in declaration order.
pub open spec fn group_enums_text(d: InputV, k: int) -> Seq<char>
    decreases d.groups.len() - k,
{
    if 0 <= k < d.groups.len() {
        group_enum_text(d, d.groups[k]) + group_enums_text(d, k + 1)
    } else {
        Seq::empty()
    }
}

/// The members of the wire enum: every group's variants, in group order
/// then variant order.
pub open spec fn wire_body_text(gs: Seq<GroupV>, k: int) -> Seq<char>
    decreases gs.len() - k,
{
    if 0 <= k < gs.len() {
        variants_text(gs[k].variants, 0) + wire_body_text(gs, k + 1)
    } else {
        Seq::empty()
    }
}

/// The flattened wire enum, named exactly as declared, with the same
/// metadata and visibility as the declaration.
pub open spec fn wire_enum_text(d: InputV) -> Seq<char> {
    attrs_text(d.attrs, 0) + vis_text(d.vis) + "enum "@ + d.name + " {\n"@ + wire_body_text(
        d.groups,
        0,
    ) + "}\n"@
}

/// One member of the dispatch enum: the group's name wrapping the group's
/// enum.
pub open spec fn dispatch_member_text(g: GroupV) -> Seq<char> {
    g.name + "("@ + g.name + "),\n"@
}

/// The dispatch enum's members, one per group, in declaration order.
pub open spec fn dispatch_members_text(gs: Seq<GroupV>, k: int) -> Seq<char>
    decreases gs.len() - k,
{
    if 0 <= k < gs.len() {
        dispatch_member_text(gs[k]) + dispatch_members_text(gs, k + 1)
    } else {
        Seq::empty()
    }
}

/// The dispatch enum: always able to copy and render itself, whatever the
/// declaration asked for, with the declaration's visibility.
pub open spec fn dispatch_enum_text(d: InputV) -> Seq<char> {
    "#[derive(Debug, Clone)]\n"@ + vis_text(d.vis) + "enum "@ + dispatch_name(d.name) + " {\n"@
        + dispatch_members_text(d.groups, 0) + "}\n"@
}

/// One arm of the conversion: rewrap the variant's payload into its
/// group's enum, then into the dispatch enum's member for that group.
pub open spec fn conv_arm_text(w: Seq<char>, g: GroupV, v: VariantV) -> Seq<char> {
    "Self::"@ + v.name + "(v) => "@ + dispatch_name(w) + "::"@ + g.name + "("@ + g.name + "::"@
        + v.name + "(v)),\n"@
}

/// The conversion arms of one group, from variant `m` on.
pub open spec fn conv_arms_vars(w: Seq<char>, g: GroupV, m: int) -> Seq<char>
    decreases g.variants.len() - m,
{
    if 0 <= m < g.variants.len() {
        conv_arm_text(w, g, g.variants[m]) + conv_arms_vars(w, g, m + 1)
    } else {
        Seq::empty()
    }
}

/// All conversion arms, from group `k` on: one arm for every variant of
/// the wire enum, so the match is total by construction.
pub open spec fn conv_arms_groups(w: Seq<char>, gs: Seq<GroupV>, k: int) -> Seq<char>
    decreases gs.len() - k,
{
    if 0 <= k < gs.len() {
        conv_arms_vars(w, gs[k], 0) + conv_arms_groups(w, gs, k + 1)
    } else {
        Seq::empty()
    }
}

/// The inherent conversion method on the wire enum, with the
/// declaration's visibility.
pub open spec fn inherent_impl_text(d: InputV) -> Seq<char> {
    "impl "@ + d.name + " {\n"@ + vis_text(d.vis) + "fn into_group(self) -> "@ + dispatch_name(
        d.name,
    ) + " {\nmatch self {\n"@ + conv_arms_groups(d.name, d.groups, 0) + "}\n}\n}\n"@
}

/// The `EnumGroup` implementation for the wire enum, delegating to the
/// inherent method, so generic and concrete callers behave identically.
pub open spec fn trait_impl_text(d: InputV) -> Seq<char> {
    "impl ::enum_group_macros::EnumGroup for "@ + d.name + " {\ntype Group = "@ + dispatch_name(
        d.name,
    ) + ";\nfn into_group(self) -> Self::Group {\n"@ + d.name + "::into_group(self)\n}\n}\n"@
}

/// Everything the generator emits for one declaration, in order: the
/// group enums, the wire enum, the dispatch enum, the conversion, and the
/// trait implementation.
pub open spec fn define_output(d: InputV) -> Seq<char> {
    group_enums_text(d, 0) + wire_enum_text(d) + dispatch_enum_text(d) + inherent_impl_text(d)
        + trait_impl_text(d)
}

/// Law: structural metadata is propagated unmodified.  The metadata
/// attached to the whole declaration stands verbatim at the head of every
/// generated group enum and of the wire enum; metadata attached to one
/// variant stands verbatim at the head of that variant's member text, and
/// nowhere else in it.
pub proof fn lemma_metadata_propagation(d: InputV, k: int, v: VariantV)
    requires
        0 <= k < d.groups.len(),
    ensures
        ({
            let a = attrs_text(d.attrs, 0);
            &&& group_enum_text(d, d.groups[k]).len() >= a.len()
            &&& group_enum_text(d, d.groups[k]).subrange(0, a.len() as int) == a
            &&& wire_enum_text(d).len() >= a.len()
            &&& wire_enum_text(d).subrange(0, a.len() as int) == a
        }),
        ({
            let va = attrs_text(v.attrs, 0);
            &&& variant_text(v).len() >= va.len()
            &&& variant_text(v).subrange(0, va.len() as int) == va
            &&& variant_text(v).skip(va.len() as int) == v.name + "("@ + render_toks(v.ty, 0)
                + "),\n"@
        }),
{
    let a = attrs_text(d.attrs, 0);
    assert(group_enum_text(d, d.groups[k]).subrange(0, a.len() as int) =~= a);
    assert(wire_enum_text(d).subrange(0, a.len() as int) =~= a);
    let va = attrs_text(v.attrs, 0);
    assert(variant_text(v).subrange(0, va.len() as int) =~= va);
    assert(variant_text(v).skip(va.len() as int) =~= v.name + "("@ + render_toks(v.ty, 0)
        + "),\n"@);
}

/// Law: the declaration's visibility marker is applied identically to
/// every generated type and to the conversion method.  It follows the
/// replicated metadata on every group enum and on the wire enum, follows
/// the fixed derive line on the dispatch enum, and stands immediately
/// before `fn into_group` inside the impl of the wire enum.
pub proof fn lemma_visibility_propagation(d: InputV, k: int)
    requires
        0 <= k < d.groups.len(),
    ensures
        ({
            let a = attrs_text(d.attrs, 0).len() as int;
            let w = vis_text(d.vis).len() as int;
            &&& group_enum_text(d, d.groups[k]).len() >= a + w
            &&& group_enum_text(d, d.groups[k]).subrange(a, a + w) == vis_text(d.vis)
            &&& wire_enum_text(d).len() >= a + w
            &&& wire_enum_text(d).subrange(a, a + w) == vis_text(d.vis)
        }),
        ({
            let h = "#[derive(Debug, Clone)]\n"@.len() as int;
            let w = vis_text(d.vis).len() as int;
            &&& dispatch_enum_text(d).len() >= h + w
            &&& dispatch_enum_text(d).subrange(h, h + w) == vis_text(d.vis)
        }),
        ({
            let h = ("impl "@ + d.name + " {\n"@).len() as int;
            let w = vis_text(d.vis).len() as int;
            &&& inherent_impl_text(d).len() >= h + w
            &&& inherent_impl_text(d).subrange(h, h + w) == vis_text(d.vis)
        }),
{
    let a = attrs_text(d.attrs, 0).len() as int;
    let w = vis_text(d.vis).len() as int;
    assert(group_enum_text(d, d.groups[k]).subrange(a, a + w) =~= vis_text(d.vis));
    assert(wire_enum_text(d).subrange(a, a + w) =~= vis_text(d.vis));
    let h = "#[derive(Debug, Clone)]\n"@.len() as int;
    assert(dispatch_enum_text(d).subrange(h, h + w) =~= vis_text(d.vis));
    let h2 = ("impl "@ + d.name + " {\n"@).len() as int;
    assert(inherent_impl_text(d).subrange(h2, h2 + w) =~= vis_text(d.vis));
}

/// Print the dispatch enum's name.
fn dispatch_name_into(out: &mut Vec<char>, wire: &Vec<char>)
    ensures
        final(out)@ == old(out)@ + dispatch_name(wire@),
{
    let ghost pre = out@;
    push_chars(out, wire);
    push_str(out, "Group");
    proof {
        assert((pre + wire@) + "Group"@ =~= pre + (wire@ + "Group"@));
    }
}

/// Print the visibility marker.
fn vis_into(out: &mut Vec<char>, v: &Visibility)
    ensures
        final(out)@ == old(out)@ + vis_text(v@),
{
    let ghost pre = out@;
    match v {
        Visibility::Private => {
            proof {
                assert(pre + Seq::<char>::empty() =~= pre);
            }
        },
        Visibility::Pub => {
            push_str(out, "pub ");
        },
        Visibility::PubRestricted(s) => {
            push_str(out, "pub(");
            render_toks_into(out, s);
            push_str(out, ") ");
            proof {
                assert(((pre + "pub("@) + render_toks(s.deep_view(), 0)) + ") "@ =~= pre + (
                "pub("@ + render_toks(s.deep_view(), 0) + ") "@));
            }
        },
    }
}

/// Print an attribute list, one line per attribute.
fn attrs_into(out: &mut Vec<char>, attrs: &Vec<Vec<Tok>>)
    ensures
        final(out)@ == old(out)@ + attrs_text(attrs.deep_view(), 0),
{
    let ghost pre = out@;
    let ghost dv = attrs.deep_view();
    let mut k: usize = 0;
    while k < attrs.len()
        invariant
            k <= attrs.len(),
            dv == attrs.deep_view(),
            dv.len() == attrs@.len(),
            out@ + attrs_text(dv, k as int) == pre + attrs_text(dv, 0),
        decreases attrs.len() - k,
    {
        proof {
            assert(dv[k as int] == attrs@[k as int].deep_view());
        }
        let ghost before = out@;
        push_str(out, "#[");
        render_toks_into(out, &attrs[k]);
        push_str(out, "]\n");
        proof {
            assert(out@ =~= before + attr_line(dv[k as int]));
            assert((before + attr_line(dv[k as int])) + attrs_text(dv, k as int + 1) =~= before + (
            attr_line(dv[k as int]) + attrs_text(dv, k as int + 1)));
        }
        k = k + 1;
    }
    proof {
        assert(out@ + Seq::<char>::empty() =~= out@);
    }
}

/// Print one variant as an enum member.
fn variant_into(out: &mut Vec<char>, v: &ParsedVariant)
    ensures
        final(out)@ == old(out)@ + variant_text(v@),
{
    let ghost pre = out@;
    attrs_into(out, &v.attrs);
    push_chars(out, &v.name);
    push_str(out, "(");
    render_toks_into(out, &v.ty);
    push_str(out, "),\n");
    proof {
        assert(out@ =~= pre + variant_text(v@));
    }
}

/// Print a run of variants.
fn variants_into(out: &mut Vec<char>, vs: &Vec<ParsedVariant>)
    ensures
        final(out)@ == old(out)@ + variants_text(vs.deep_view(), 0),
{
    let ghost pre = out@;
    let ghost dv = vs.deep_view();
    let mut k: usize = 0;
    while k < vs.len()
        invariant
            k <= vs.len(),
            dv == vs.deep_view(),
            dv.len() == vs@.len(),
            out@ + variants_text(dv, k as int) == pre + variants_text(dv, 0),
        decreases vs.len() - k,
    {
        proof {
            assert(dv[k as int] == vs@[k as int]@);
        }
        let ghost before = out@;
        variant_into(out, &vs[k]);
        proof {
            assert((before + variant_text(dv[k as int])) + variants_text(dv, k as int + 1)
                =~= before + (variant_text(dv[k as int]) + variants_text(dv, k as int + 1)));
        }
        k = k + 1;
    }
    proof {
        assert(out@ + Seq::<char>::empty() =~= out@);
    }
}

/// Print the enum generated for one group.
fn group_enum_into(out: &mut Vec<char>, d: &EnumGroupInput, g: &ParsedGroup)
    ensures
        final(out)@ == old(out)@ + group_enum_text(d@, g@),
{
    let ghost pre = out@;
    attrs_into(out, &d.attrs);
    vis_into(out, &d.vis);
    push_str(out, "enum ");
    push_chars(out, &g.name);
    push_str(out, " {\n");
    variants_into(out, &g.variants);
    push_str(out, "}\n");
    proof {
        assert(out@ =~= pre + group_enum_text(d@, g@));
    }
}

/// Print the flattened wire enum.
fn wire_enum_into(out: &mut Vec<char>, d: &EnumGroupInput)
    ensures
        final(out)@ == old(out)@ + wire_enum_text(d@),
{
    let ghost pre = out@;
    attrs_into(out, &d.attrs);
    vis_into(out, &d.vis);
    push_str(out, "enum ");
    push_chars(out, &d.name);
    push_str(out, " {\n");
    let ghost gdv = d.groups.deep_view();
    let ghost mid = out@;
    let mut k: usize = 0;
    while k < d.groups.len()
        invariant
            k <= d.groups.len(),
            gdv == d.groups.deep_view(),
            gdv.len() == d.groups@.len(),
            out@ + wire_body_text(gdv, k as int) == mid + wire_body_text(gdv, 0),
        decreases d.groups.len() - k,
    {
        proof {
            assert(gdv[k as int] == d.groups@[k as int]@);
        }
        let ghost before = out@;
        variants_into(out, &d.groups[k].variants);
        proof {
            assert((before + variants_text(gdv[k as int].variants, 0)) + wire_body_text(
                gdv,
                k as int + 1,
            ) =~= before + (variants_text(gdv[k as int].variants, 0) + wire_body_text(
                gdv,
                k as int + 1,
            )));
        }
        k = k + 1;
    }
    proof {
        assert(out@ + Seq::<char>::empty() =~= out@);
    }
    push_str(out, "}\n");
    proof {
        assert(out@ =~= pre + wire_enum_text(d@));
    }
}

/// Print the dispatch enum.
fn dispatch_enum_into(out: &mut Vec<char>, d: &EnumGroupInput)
    ensures
        final(out)@ == old(out)@ + dispatch_enum_text(d@),
{
    let ghost pre = out@;
    push_str(out, "#[derive(Debug, Clone)]\n");
    vis_into(out, &d.vis);
    push_str(out, "enum ");
    dispatch_name_into(out, &d.name);
    push_str(out, " {\n");
    let ghost gdv = d.groups.deep_view();
    let ghost mid = out@;
    let mut k: usize = 0;
    while k < d.groups.len()
        invariant
            k <= d.groups.len(),
            gdv == d.groups.deep_view(),
            gdv.len() == d.groups@.len(),
            out@ + dispatch_members_text(gdv, k as int) == mid + dispatch_members_text(gdv, 0),
        decreases d.groups.len() - k,
    {
        proof {
            assert(gdv[k as int] == d.groups@[k as int]@);
        }
        let ghost before = out@;
        push_chars(out, &d.groups[k].name);
        push_str(out, "(");
        push_chars(out, &d.groups[k].name);
        push_str(out, "),\n");
        proof {
            assert(out@ =~= before + dispatch_member_text(gdv[k as int]));
            assert((before + dispatch_member_text(gdv[k as int])) + dispatch_members_text(
                gdv,
                k as int + 1,
            ) =~= before + (dispatch_member_text(gdv[k as int]) + dispatch_members_text(
                gdv,
                k as int + 1,
            )));
        }
        k = k + 1;
    }
    proof {
        assert(out@ + Seq::<char>::empty() =~= out@);
    }
    push_str(out, "}\n");
    proof {
        assert(out@ =~= pre + dispatch_enum_text(d@));
    }
}

/// Print one conversion arm.
fn conv_arm_into(out: &mut Vec<char>, wire: &Vec<char>, g: &ParsedGroup, v: &ParsedVariant)
    ensures
        final(out)@ == old(out)@ + conv_arm_text(wire@, g@, v@),
{
    let ghost pre = out@;
    push_str(out, "Self::");
    push_chars(out, &v.name);
    push_str(out, "(v) => ");
    dispatch_name_into(out, wire);
    push_str(out, "::");
    push_chars(out, &g.name);
    push_str(out, "(");
    push_chars(out, &g.name);
    push_str(out, "::");
    push_chars(out, &v.name);
    push_str(out, "(v)),\n");
    proof {
        assert(out@ =~= pre + conv_arm_text(wire@, g@, v@));
    }
}

/// Print every conversion arm, in declaration order.
fn conv_arms_into(out: &mut Vec<char>, d: &EnumGroupInput)
    ensures
        final(out)@ == old(out)@ + conv_arms_groups(d@.name, d@.groups, 0),
{
    let ghost pre = out@;
    let ghost w = d.name@;
    let ghost gdv = d.groups.deep_view();
    let mut k: usize = 0;
    while k < d.groups.len()
        invariant
            k <= d.groups.len(),
            w == d.name@,
            gdv == d.groups.deep_view(),
            gdv.len() == d.groups@.len(),
            out@ + conv_arms_groups(w, gdv, k as int) == pre + conv_arms_groups(w, gdv, 0),
        decreases d.groups.len() - k,
    {
        proof {
            assert(gdv[k as int] == d.groups@[k as int]@);
        }
        let ghost before = out@;
        let g = &d.groups[k];
        let ghost gv = g@;
        let ghost vdv = g.variants.deep_view();
        let mut m: usize = 0;
        while m < g.variants.len()
            invariant
                m <= g.variants.len(),
                gv == g@,
                w == d.name@,
                vdv == g.variants.deep_view(),
                vdv.len() == g.variants@.len(),
                gv.variants == vdv,
                out@ + conv_arms_vars(w, gv, m as int) == before + conv_arms_vars(w, gv, 0),
            decreases g.variants.len() - m,
        {
            proof {
                assert(vdv[m as int] == g.variants@[m as int]@);
            }
            let ghost b2 = out@;
            conv_arm_into(out, &d.name, g, &g.variants[m]);
            proof {
                assert((b2 + conv_arm_text(w, gv, vdv[m as int])) + conv_arms_vars(
                    w,
                    gv,
                    m as int + 1,
                ) =~= b2 + (conv_arm_text(w, gv, vdv[m as int]) + conv_arms_vars(
                    w,
                    gv,
                    m as int + 1,
                )));
            }
            m = m + 1;
        }
        proof {
            assert(out@ + Seq::<char>::empty() =~= out@);
            assert(out@ == before + conv_arms_vars(w, gdv[k as int], 0));
            assert((before + conv_arms_vars(w, gdv[k as int], 0)) + conv_arms_groups(
                w,
                gdv,
                k as int + 1,
            ) =~= before + (conv_arms_vars(w, gdv[k as int], 0) + conv_arms_groups(
                w,
                gdv,
                k as int + 1,
            )));
        }
        k = k + 1;
    }
    proof {
        assert(out@ + Seq::<char>::empty() =~= out@);
    }
}

/// Print the inherent conversion method.
fn inherent_impl_into(out: &mut Vec<char>, d: &EnumGroupInput)
    ensures
        final(out)@ == old(out)@ + inherent_impl_text(d@),
{
    let ghost pre = out@;
    push_str(out, "impl ");
    push_chars(out, &d.name);
    push_str(out, " {\n");
    vis_into(out, &d.vis);
    push_str(out, "fn into_group(self) -> ");
    dispatch_name_into(out, &d.name);
    push_str(out, " {\nmatch self {\n");
    conv_arms_into(out, d);
    push_str(out, "}\n}\n}\n");
    proof {
        assert(out@ =~= pre + inherent_impl_text(d@));
    }
}

/// Print the `EnumGroup` implementation.
fn trait_impl_into(out: &mut Vec<char>, d: &EnumGroupInput)
    ensures
        final(out)@ == old(out)@ + trait_impl_text(d@),
{
    let ghost pre = out@;
    push_str(out, "impl ::enum_group_macros::EnumGroup for ");
    push_chars(out, &d.name);
    push_str(out, " {\ntype Group = ");
    dispatch_name_into(out, &d.name);
    push_str(out, ";\nfn into_group(self) -> Self::Group {\n");
    push_chars(out, &d.name);
    push_str(out, "::into_group(self)\n}\n}\n");
    proof {
        assert(out@ =~= pre + trait_impl_text(d@));
    }
}

/// Generate every declaration for a parsed grouped union: the group
/// enums, the wire enum, the dispatch enum, the conversion and the trait
/// implementation, exactly as [`define_output`] states.
pub fn generate_enum_group(input: &EnumGroupInput) -> (out: Vec<char>)
    ensures
        out@ == define_output(input@),
{
    let mut out: Vec<char> = Vec::new();
    let ghost gdv = input.groups.deep_view();
    let mut k: usize = 0;
    while k < input.groups.len()
        invariant
            k <= input.groups.len(),
            gdv == input.groups.deep_view(),
            gdv.len() == input.groups@.len(),
            gdv == input@.groups,
            out@ + group_enums_text(input@, k as int) == group_enums_text(input@, 0),
        decreases input.groups.len() - k,
    {
        proof {
            assert(gdv[k as int] == input.groups@[k as int]@);
        }
        let ghost before = out@;
        group_enum_into(&mut out, input, &input.groups[k]);
        proof {
            assert((before + group_enum_text(input@, gdv[k as int])) + group_enums_text(
                input@,
                k as int + 1,
            ) =~= before + (group_enum_text(input@, gdv[k as int]) + group_enums_text(
                input@,
                k as int + 1,
            )));
        }
        k = k + 1;
    }
    proof {
        assert(out@ + Seq::<char>::empty() =~= out@);
    }
    wire_enum_into(&mut out, input);
    dispatch_enum_into(&mut out, input);
    inherent_impl_into(&mut out, input);
    trait_impl_into(&mut out, input);
    proof {
        assert(out@ =~= define_output(input@));
    }
    out
}

} // verus!
