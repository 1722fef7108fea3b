//! The meaning of the generated conversion and dispatch.
//!
//! The generated wire enum's members are the concatenation of all groups'
//! variants in declaration order, and the generated `into_group` match
//! rewraps the payload of the variant at each flat position into that
//! variant's group.  This module states that meaning over the parsed
//! declaration and executes it: a wire value is a flat member position
//! together with its payload, and [`EnumGroupInput::into_group_value`]
//! maps it to the group, the position within the group, and the payload
//! unchanged — the value-preserving round trip of the conversion.  A
//! dispatch expression then selects the first arm naming that group.

use vstd::prelude::*;

use crate::token::Tok;
use crate::token::chars_eq;
use crate::ast::GroupV;
use crate::ast::VariantV;
use crate::ast::ArmV;
use crate::ast::EnumGroupInput;
use crate::ast::MatchArm;

verus! {

broadcast use vstd::seq::group_seq_axioms;

/// Every group's variants, flattened in group order then variant order:
/// the members of the generated wire enum.
pub open spec fn flat_variants(gs: Seq<GroupV>) -> Seq<VariantV>
    decreases gs.len(),
{
    if gs.len() == 0 {
        Seq::empty()
    } else {
        gs[0].variants + flat_variants(gs.drop_first())
    }
}

/// How many flat positions the groups before `g` occupy.
pub open spec fn flat_len_prefix(gs: Seq<GroupV>, g: int) -> int
    decreases g,
{
    if g <= 0 {
        0
    } else {
        flat_len_prefix(gs, g - 1) + gs[g - 1].variants.len()
    }
}

/// The group that the flat position `idx` falls in.
pub open spec fn group_index_of(gs: Seq<GroupV>, idx: int) -> int
    decreases gs.len(),
{
    if gs.len() == 0 {
        0
    } else if idx < gs[0].variants.len() {
        0
    } else {
        1 + group_index_of(gs.drop_first(), idx - gs[0].variants.len())
    }
}

/// The position within its group of the flat position `idx`.
pub open spec fn variant_index_of(gs: Seq<GroupV>, idx: int) -> int
    decreases gs.len(),
{
    if gs.len() == 0 {
        idx
    } else if idx < gs[0].variants.len() {
        idx
    } else {
        variant_index_of(gs.drop_first(), idx - gs[0].variants.len())
    }
}

/// The members of the generated dispatch enum: one per group, named after
/// it, in declaration order.
pub open spec fn dispatch_members(gs: Seq<GroupV>) -> Seq<Seq<char>> {
    Seq::new(gs.len(), |i: int| gs[i].name)
}

pub proof fn lemma_flat_len_prefix_shift(gs: Seq<GroupV>, k: int)
    requires
        gs.len() > 0,
        0 <= k,
        k + 1 <= gs.len(),
    ensures
        flat_len_prefix(gs, k + 1) == gs[0].variants.len() + flat_len_prefix(gs.drop_first(), k),
    decreases k,
{
    let rest = gs.drop_first();
    if k > 0 {
        lemma_flat_len_prefix_shift(gs, k - 1);
        assert(rest[k - 1] == gs[k]);
        assert(flat_len_prefix(gs, k + 1) == flat_len_prefix(gs, k) + gs[k].variants.len());
        assert(flat_len_prefix(rest, k) == flat_len_prefix(rest, k - 1) + rest[k
            - 1].variants.len());
    } else {
        assert(flat_len_prefix(gs, 1) == flat_len_prefix(gs, 0) + gs[0].variants.len());
        assert(flat_len_prefix(rest, 0) == 0);
    }
}

pub proof fn lemma_flat_len_prefix_nonneg(gs: Seq<GroupV>, g: int)
    ensures
        flat_len_prefix(gs, g) >= 0,
    decreases g,
{
    if g > 0 {
        lemma_flat_len_prefix_nonneg(gs, g - 1);
    }
}

/// The flat member count is the count contributed by all groups.
pub proof fn lemma_flat_len(gs: Seq<GroupV>)
    ensures
        flat_variants(gs).len() == flat_len_prefix(gs, gs.len() as int),
    decreases gs.len(),
{
    if gs.len() > 0 {
        lemma_flat_len(gs.drop_first());
        lemma_flat_len_prefix_shift(gs, gs.len() - 1);
    }
}

/// Law: the conversion is a value-preserving round trip.  The flattened
/// member at position `idx` came from exactly one group `g` and position
/// `m` within it; converting selects that `g` and `m`, the variant there
/// is the very variant that produced the flat member, and `idx` is
/// recovered from `g` and `m`.
pub proof fn lemma_conversion_round_trip(gs: Seq<GroupV>, idx: int)
    requires
        0 <= idx < flat_variants(gs).len(),
    ensures
        ({
            let g = group_index_of(gs, idx);
            let m = variant_index_of(gs, idx);
            &&& 0 <= g < gs.len()
            &&& 0 <= m < gs[g].variants.len()
            &&& gs[g].variants[m] == flat_variants(gs)[idx]
            &&& flat_len_prefix(gs, g) + m == idx
        }),
    decreases gs.len(),
{
    if gs.len() > 0 {
        if idx < gs[0].variants.len() {
            assert(flat_variants(gs)[idx] == gs[0].variants[idx]);
        } else {
            let rest = gs.drop_first();
            lemma_conversion_round_trip(rest, idx - gs[0].variants.len());
            let g2 = group_index_of(rest, idx - gs[0].variants.len());
            let m2 = variant_index_of(rest, idx - gs[0].variants.len());
            assert(rest[g2] == gs[g2 + 1]);
            assert(flat_variants(gs)[idx] == flat_variants(rest)[idx - gs[0].variants.len()]);
            lemma_flat_len_prefix_shift(gs, g2);
        }
    }
}

/// Law: declaration order is preserved.  The `m`-th variant of the `g`-th
/// group stands at flat position `flat_len_prefix(gs, g) + m` of the wire
/// enum — groups in the order written, variants in the order written —
/// and converting that position finds `g` and `m` again; the dispatch
/// enum's `g`-th member is the `g`-th group.
pub proof fn lemma_declaration_order(gs: Seq<GroupV>, g: int, m: int)
    requires
        0 <= g < gs.len(),
        0 <= m < gs[g].variants.len(),
    ensures
        ({
            let idx = flat_len_prefix(gs, g) + m;
            &&& 0 <= idx < flat_variants(gs).len()
            &&& flat_variants(gs)[idx] == gs[g].variants[m]
            &&& group_index_of(gs, idx) == g
            &&& variant_index_of(gs, idx) == m
        }),
        dispatch_members(gs).len() == gs.len(),
        dispatch_members(gs)[g] == gs[g].name,
    decreases gs.len(),
{
    lemma_flat_len(gs);
    if g == 0 {
        assert(flat_variants(gs)[m] == gs[0].variants[m]);
    } else {
        let rest = gs.drop_first();
        assert(rest[g - 1] == gs[g]);
        lemma_declaration_order(rest, g - 1, m);
        lemma_flat_len_prefix_shift(gs, g - 1);
        let idx = flat_len_prefix(gs, g) + m;
        assert(idx - gs[0].variants.len() == flat_len_prefix(rest, g - 1) + m);
        lemma_flat_len_prefix_nonneg(rest, g - 1);
        assert(flat_variants(gs)[idx] == flat_variants(rest)[idx - gs[0].variants.len()]);
    }
}

pub proof fn lemma_flat_len_prefix_mono(gs: Seq<GroupV>, a: int, b: int)
    requires
        0 <= a <= b,
    ensures
        flat_len_prefix(gs, a) <= flat_len_prefix(gs, b),
    decreases b - a,
{
    if a < b {
        lemma_flat_len_prefix_mono(gs, a, b - 1);
    }
}

/// Law: an empty group contributes nothing to the flattened members —
/// removing it leaves them unchanged — while still contributing exactly
/// one member to the dispatch enum, whose member count always equals the
/// group count.
pub proof fn lemma_empty_group(gs: Seq<GroupV>, g: int)
    requires
        0 <= g < gs.len(),
        gs[g].variants.len() == 0,
    ensures
        flat_variants(gs) == flat_variants(gs.remove(g)),
        dispatch_members(gs).len() == gs.len(),
        dispatch_members(gs.remove(g)).len() == gs.len() - 1,
    decreases gs.len(),
{
    if g == 0 {
        assert(gs.remove(0) =~= gs.drop_first());
        assert(gs[0].variants + flat_variants(gs.drop_first()) =~= flat_variants(
            gs.drop_first(),
        ));
    } else {
        let rest = gs.drop_first();
        assert(rest[g - 1] == gs[g]);
        lemma_empty_group(rest, g - 1);
        assert(gs.remove(g).drop_first() =~= rest.remove(g - 1));
        assert(gs.remove(g)[0] == gs[0]);
        assert(flat_variants(gs.remove(g)) == gs[0].variants + flat_variants(rest.remove(g - 1)));
        assert(flat_variants(gs) == gs[0].variants + flat_variants(rest));
    }
}

/// A value of the wire enum: the flat position of its member, and its
/// payload as an opaque token span.
#[derive(Debug, Clone)]
pub struct WireValue {
    pub idx: usize,
    pub payload: Vec<Tok>,
}

/// A value of the dispatch enum: the member (group) it falls in, the
/// position of the variant within that group, and the payload.
#[derive(Debug, Clone)]
pub struct GroupedValue {
    pub group: usize,
    pub variant: usize,
    pub payload: Vec<Tok>,
}

impl EnumGroupInput {
    /// The conversion the generated `into_group` performs, executed over
    /// the declaration: total over every flat position, it selects the
    /// group and in-group position that contributed the member there and
    /// passes the payload through unchanged.
    pub fn into_group_value(&self, v: WireValue) -> (r: GroupedValue)
        requires
            (v.idx as int) < flat_variants(self@.groups).len(),
        ensures
            r.group as int == group_index_of(self@.groups, v.idx as int),
            r.variant as int == variant_index_of(self@.groups, v.idx as int),
            r.group < self@.groups.len(),
            r.variant < self@.groups[r.group as int].variants.len(),
            self@.groups[r.group as int].variants[r.variant as int] == flat_variants(
                self@.groups,
            )[v.idx as int],
            flat_len_prefix(self@.groups, r.group as int) + r.variant == v.idx,
            r.payload == v.payload,
    {
        proof {
            lemma_conversion_round_trip(self@.groups, v.idx as int);
        }
        let ghost gs = self@.groups;
        let mut g: usize = 0;
        let mut rem: usize = v.idx;
        while g < self.groups.len() && rem >= self.groups[g].variants.len()
            invariant
                gs == self@.groups,
                g <= self.groups.len(),
                self.groups@.len() == gs.len(),
                flat_len_prefix(gs, g as int) + rem == v.idx,
                (v.idx as int) < flat_variants(gs).len(),
                group_index_of(gs, v.idx as int) >= g,
            decreases self.groups.len() - g,
        {
            proof {
                assert(gs[g as int] == self.groups@[g as int]@);
                lemma_group_walk_step(gs, g as int, v.idx as int);
            }
            rem = rem - self.groups[g].variants.len();
            g = g + 1;
        }
        proof {
            if g < self.groups.len() {
                assert(gs[g as int] == self.groups@[g as int]@);
            }
            lemma_flat_len(gs);
            lemma_group_walk_stop(gs, g as int, v.idx as int);
        }
        GroupedValue { group: g, variant: rem, payload: v.payload }
    }
}

/// While the walk has not reached the group of `idx`, stepping past a
/// whole group keeps the position arithmetic aligned.
proof fn lemma_group_walk_step(gs: Seq<GroupV>, g: int, idx: int)
    requires
        0 <= g < gs.len(),
        0 <= idx < flat_variants(gs).len(),
        idx - flat_len_prefix(gs, g) >= gs[g].variants.len(),
    ensures
        group_index_of(gs, idx) >= g + 1,
        flat_len_prefix(gs, g + 1) <= idx,
{
    lemma_conversion_round_trip(gs, idx);
    let gg = group_index_of(gs, idx);
    let mm = variant_index_of(gs, idx);
    if gg <= g {
        lemma_flat_len_prefix_mono(gs, gg, g);
        assert(flat_len_prefix(gs, gg) + mm == idx);
        if gg < g {
            lemma_prefix_gap(gs, gg, g);
        }
        assert(false);
    }
    lemma_flat_len_prefix_mono(gs, g + 1, gg);
    assert(flat_len_prefix(gs, gg) <= idx) by {
        lemma_conversion_round_trip(gs, idx);
    }
}

/// A whole group's width separates consecutive prefix counts.
proof fn lemma_prefix_gap(gs: Seq<GroupV>, a: int, b: int)
    requires
        0 <= a < b,
    ensures
        flat_len_prefix(gs, b) >= flat_len_prefix(gs, a + 1),
{
    lemma_flat_len_prefix_mono(gs, a + 1, b);
}

/// When the walk stops, it stands exactly at the group of `idx`.
proof fn lemma_group_walk_stop(gs: Seq<GroupV>, g: int, idx: int)
    requires
        0 <= idx < flat_variants(gs).len(),
        0 <= g <= gs.len(),
        flat_len_prefix(gs, g) <= idx,
        group_index_of(gs, idx) >= g,
        g == gs.len() || idx - flat_len_prefix(gs, g) < gs[g].variants.len(),
    ensures
        g < gs.len(),
        group_index_of(gs, idx) == g,
        variant_index_of(gs, idx) == idx - flat_len_prefix(gs, g),
{
    lemma_conversion_round_trip(gs, idx);
    lemma_flat_len(gs);
    let gg = group_index_of(gs, idx);
    let mm = variant_index_of(gs, idx);
    if g == gs.len() {
        lemma_flat_len_prefix_mono(gs, g, gg);
        assert(false);
    }
    if gg > g {
        lemma_flat_len_prefix_mono(gs, g + 1, gg);
        lemma_flat_len_prefix_shift_at(gs, g);
        assert(false);
    }
    assert(gg == g);
}

/// Unfolding one step of the prefix count at `g`.
proof fn lemma_flat_len_prefix_shift_at(gs: Seq<GroupV>, g: int)
    requires
        0 <= g,
    ensures
        flat_len_prefix(gs, g + 1) == flat_len_prefix(gs, g) + gs[g].variants.len(),
{
}

/// The first arm, from `k` on, whose group name is `gname`.
pub open spec fn arm_lookup(arms: Seq<ArmV>, gname: Seq<char>, k: int) -> Option<int>
    decreases arms.len() - k,
{
    if 0 <= k < arms.len() {
        if arms[k].group_name == gname {
            Some(k)
        } else {
            arm_lookup(arms, gname, k + 1)
        }
    } else {
        None
    }
}

/// The dispatch a generated match performs, executed over the
/// declaration: convert the wire value, then take the first arm naming
/// the value's group.  `None` means no arm matches — exactly the case the
/// host compiler rejects as a non-exhaustive match on the generated code.
pub fn eval_dispatch(d: &EnumGroupInput, arms: &Vec<MatchArm>, idx: usize) -> (r: Option<usize>)
    requires
        (idx as int) < flat_variants(d@.groups).len(),
    ensures
        ({
            let g = group_index_of(d@.groups, idx as int);
            match arm_lookup(arms.deep_view(), d@.groups[g].name, 0) {
                Some(a) => r matches Some(x) && x as int == a,
                None => r is None,
            }
        }),
{
    let gv = d.into_group_value(WireValue { idx, payload: Vec::new() });
    let gname = &d.groups[gv.group].name;
    proof {
        assert(d.groups@[gv.group as int]@.name == d@.groups[gv.group as int].name);
    }
    let ghost adv = arms.deep_view();
    let mut k: usize = 0;
    while k < arms.len()
        invariant
            k <= arms.len(),
            adv == arms.deep_view(),
            adv.len() == arms@.len(),
            gname@ == d@.groups[group_index_of(d@.groups, idx as int)].name,
            arm_lookup(adv, gname@, 0) == arm_lookup(adv, gname@, k as int),
        decreases arms.len() - k,
    {
        proof {
            assert(adv[k as int] == arms@[k as int]@);
        }
        if chars_eq(&arms[k].group_name, gname) {
            return Some(k);
        }
        k = k + 1;
    }
    None
}

} // verus!
